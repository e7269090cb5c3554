use vstd::prelude::*;

verus! {

/// Whether the byte at `i` ends a physical line (`\n`, a lone `\r`, or the `\n` of `\r\n`).
pub open spec fn ends_line(b: Seq<u8>, i: int) -> bool {
    0 <= i < b.len() && (b[i] == 10u8 || (b[i] == 13u8 && !(i + 1 < b.len() && b[i + 1]
        == 10u8)))
}

/// Offsets at which the physical lines after the first one start, among the first `n` bytes.
pub open spec fn line_starts(b: Seq<u8>, n: int) -> Seq<u32>
    decreases n,
{
    if n <= 0 {
        Seq::empty()
    } else if ends_line(b, n - 1) {
        line_starts(b, n - 1).push(n as u32)
    } else {
        line_starts(b, n - 1)
    }
}

/// Index of the first line start after `off`, searching from index `i`: for increasing
/// starts, the number of starts at or before `off`, i.e. the 0-based line of `off`.
pub open spec fn line_index(starts: Seq<u32>, off: u32, i: int) -> int
    decreases starts.len() - i,
{
    if i < 0 || i >= starts.len() || starts[i] > off {
        i
    } else {
        line_index(starts, off, i + 1)
    }
}

/// 0-based line and column of offset `off`, given the offsets where lines start.
pub open spec fn line_and_col(starts: Seq<u32>, off: u32) -> (int, int) {
    let line = line_index(starts, off, 0);
    let start: int = if line == 0 {
        0
    } else {
        starts[line - 1] as int
    };
    (line, off - start)
}

/// Map from byte offsets to lines, recording where each physical line starts.
#[derive(Debug, Clone)]
pub struct LineMap {
    lines: Vec<u32>,
}

impl LineMap {
    /// Offsets at which the lines after the first one start, in increasing order.
    pub closed spec fn starts(&self) -> Seq<u32> {
        self.lines@
    }

    pub open spec fn wf(&self) -> bool {
        &&& self.starts().len() < u32::MAX
        &&& forall|i: int, j: int|
            0 <= i < j < self.starts().len() ==> self.starts()[i] < self.starts()[j]
    }

    /// A map of a text of one line.
    pub fn new() -> (r: LineMap)
        ensures
            r.starts() == Seq::<u32>::empty(),
            r.wf(),
    {
        LineMap { lines: Vec::new() }
    }

    /// Records that a line starts at `pos`.
    pub fn add_line(&mut self, pos: u32)
        requires
            old(self).wf(),
            old(self).starts().len() > 0 ==> old(self).starts().last() < pos,
            old(self).starts().len() + 1 < u32::MAX,
        ensures
            final(self).starts() == old(self).starts().push(pos),
            final(self).wf(),
    {
        self.lines.push(pos);
    }

    /// The map of the physical lines of `b`.
    pub fn of_bytes(b: &[u8]) -> (r: LineMap)
        requires
            b@.len() < u32::MAX,
        ensures
            r.starts() == line_starts(b@, b@.len() as int),
            r.wf(),
    {
        let mut m = LineMap::new();
        let mut i: usize = 0;
        while i < b.len()
            invariant
                i <= b@.len() < u32::MAX,
                m.starts() == line_starts(b@, i as int),
                m.wf(),
                m.starts().len() > 0 ==> m.starts().last() <= i,
                m.starts().len() <= i,
            decreases b@.len() - i,
        {
            let ends = b[i] == 10u8 || (b[i] == 13u8 && !(i + 1 < b.len() && b[i + 1] == 10u8));
            if ends {
                m.add_line((i + 1) as u32);
            }
            i = i + 1;
        }
        m
    }

    /// 0-based line and column of a byte offset.
    pub fn get_line_and_col(&self, pos: u32) -> (r: (u32, u32))
        requires
            self.wf(),
        ensures
            r.0 == line_and_col(self.starts(), pos).0,
            r.1 == line_and_col(self.starts(), pos).1,
            r.0 <= self.starts().len(),
    {
        let mut i: usize = 0;
        while i < self.lines.len() && self.lines[i] <= pos
            invariant
                i <= self.lines@.len(),
                line_index(self.lines@, pos, i as int) == line_index(self.lines@, pos, 0),
                i > 0 ==> self.lines@[i - 1] <= pos,
            decreases self.lines@.len() - i,
        {
            i = i + 1;
        }
        let start = if i == 0 {
            0
        } else {
            self.lines[i - 1]
        };
        (i as u32, pos - start)
    }

    /// 1-based line and 0-based column of a byte offset, as diagnostics print them.
    pub fn offset_to_line_col(&self, pos: u32) -> (r: (u32, u32))
        requires
            self.wf(),
        ensures
            r.0 == line_and_col(self.starts(), pos).0 + 1,
            r.1 == line_and_col(self.starts(), pos).1,
    {
        let (line, col) = self.get_line_and_col(pos);
        (line + 1, col)
    }
}

} // verus!
