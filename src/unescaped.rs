//! Removal of line continuations from a string.
use vstd::prelude::*;
use vstd::std_specs::iter::IteratorSpec;

verus! {

/// Width of the line continuation (a backslash and one of `\n`, `\r`, `\r\n`, `\n\r`) at
/// `i`, or 0.
pub open spec fn cont_width(s: Seq<char>, i: int) -> int {
    if 0 <= i < s.len() && s[i] == '\\' {
        if i + 2 < s.len() && ((s[i + 1] == '\r' && s[i + 2] == '\n') || (s[i + 1] == '\n'
            && s[i + 2] == '\r')) {
            3
        } else if i + 1 < s.len() && (s[i + 1] == '\n' || s[i + 1] == '\r') {
            2
        } else {
            0
        }
    } else {
        0
    }
}

/// The characters of `s` from index `i` on, with every line continuation removed.
pub open spec fn unescape_from(s: Seq<char>, i: int) -> Seq<char>
    decreases s.len() - i,
{
    if i < 0 || i >= s.len() {
        Seq::empty()
    } else if cont_width(s, i) > 0 {
        unescape_from(s, i + cont_width(s, i))
    } else {
        seq![s[i]] + unescape_from(s, i + 1)
    }
}

/// The characters of `s` with every line continuation removed.
pub open spec fn unescape(s: Seq<char>) -> Seq<char> {
    unescape_from(s, 0)
}

proof fn lemma_no_backslash(s: Seq<char>, i: int)
    requires
        0 <= i <= s.len(),
        forall|k: int| 0 <= k < s.len() ==> s[k] != '\\',
    ensures
        unescape_from(s, i) == s.skip(i),
    decreases s.len() - i,
{
    if i < s.len() {
        lemma_no_backslash(s, i + 1);
        assert(s.skip(i) =~= seq![s[i]] + s.skip(i + 1));
    } else {
        assert(s.skip(i) =~= Seq::<char>::empty());
    }
}

/// The characters of a string, in order.
pub(crate) fn chars_of(s: &str) -> (r: Vec<char>)
    ensures
        r@ == s@,
{
    broadcast use vstd::string::group_string_axioms;

    let mut it = s.chars();
    let mut v: Vec<char> = Vec::new();
    loop
        invariant
            v@ + it.remaining() == s@,
            it.obeys_prophetic_iter_laws(),
            it.decrease() is Some,
        decreases it.decrease()->0,
    {
        match it.next() {
            Some(c) => {
                v.push(c);
            },
            None => {
                return v;
            },
        }
    }
}

fn cont_width_exec(s: &Vec<char>, i: usize) -> (r: usize)
    requires
        i <= s@.len(),
    ensures
        r == cont_width(s@, i as int),
{
    let n = s.len();
    if i < n && s[i] == '\\' {
        if n - i > 2 && ((s[i + 1] == '\r' && s[i + 2] == '\n') || (s[i + 1] == '\n' && s[i + 2]
            == '\r')) {
            3
        } else if n - i > 1 && (s[i + 1] == '\n' || s[i + 1] == '\r') {
            2
        } else {
            0
        }
    } else {
        0
    }
}

/// A string slice read with its line continuations removed.
#[derive(Debug, Clone, Copy)]
pub struct Unescaped<'s> {
    src: &'s str,
}

/// The characters of an [`Unescaped`] string, one at a time.
pub struct UnescapeIter {
    chars: Vec<char>,
    pos: usize,
}

impl UnescapeIter {
    /// Reads `chars` with their line continuations removed.
    pub fn of_chars(chars: Vec<char>) -> (r: UnescapeIter)
        ensures
            r.rest() == unescape(chars@),
    {
        UnescapeIter { chars, pos: 0 }
    }

    /// The characters still to come.
    pub closed spec fn rest(&self) -> Seq<char> {
        unescape_from(self.chars@, self.pos as int)
    }

    /// The next character, or `None` when all have been read.
    pub fn next(&mut self) -> (r: Option<char>)
        ensures
            old(self).rest().len() == 0 ==> r is None && final(self).rest().len() == 0,
            old(self).rest().len() > 0 ==> r == Some(old(self).rest()[0]) && final(self).rest()
                == old(self).rest().skip(1),
    {
        let ghost orig = self.rest();
        assert(orig == old(self).rest());
        loop
            invariant
                self.rest() == orig,
                orig == old(self).rest(),
            decreases self.chars@.len() - self.pos,
        {
            if self.pos >= self.chars.len() {
                return None;
            }
            let w = cont_width_exec(&self.chars, self.pos);
            if w > 0 {
                self.pos = self.pos + w;
            } else {
                let c = self.chars[self.pos];
                self.pos = self.pos + 1;
                proof {
                    assert(orig == seq![c] + self.rest());
                    assert(orig.skip(1) =~= self.rest());
                }
                return Some(c);
            }
        }
    }

    /// All the characters still to come.
    pub fn collect_chars(&mut self) -> (r: Vec<char>)
        ensures
            r@ == old(self).rest(),
            final(self).rest().len() == 0,
    {
        let ghost orig = self.rest();
        let mut v: Vec<char> = Vec::new();
        loop
            invariant
                v@ + self.rest() == orig,
                orig == old(self).rest(),
            decreases self.rest().len(),
        {
            match self.next() {
                Some(c) => {
                    proof {
                        assert(v@.push(c) + self.rest() =~= v@ + seq![c] + self.rest());
                    }
                    v.push(c);
                },
                None => {
                    proof {
                        assert(v@ =~= orig);
                    }
                    return v;
                },
            }
        }
    }
}

/// Relies on `String`'s `FromIterator<&char>`: the string holds the characters in order.
#[verifier::external_body]
pub(crate) fn string_of_chars(v: &Vec<char>) -> (r: String)
    ensures
        r@ == v@,
{
    v.iter().collect()
}

impl<'s> Unescaped<'s> {
    /// The source text, continuations included.
    pub closed spec fn source(&self) -> Seq<char> {
        self.src@
    }

    pub fn new(src: &'s str) -> (r: Unescaped<'s>)
        ensures
            r.source() == src@,
    {
        Unescaped { src }
    }

    /// Indices of the backslash characters of the source, in increasing order.
    pub fn backslashes(&self) -> (r: Vec<usize>)
        ensures
            forall|k: int| 0 <= k < r@.len() ==> (#[trigger] r@[k]) < self.source().len()
                && self.source()[r@[k] as int] == '\\',
            forall|i: int|
                0 <= i < self.source().len() && self.source()[i] == '\\' ==> exists|k: int|
                    0 <= k < r@.len() && r@[k] == i,
            forall|a: int, b: int| 0 <= a < b < r@.len() ==> r@[a] < r@[b],
    {
        let s = chars_of(self.src);
        let mut r: Vec<usize> = Vec::new();
        let mut i: usize = 0;
        while i < s.len()
            invariant
                i <= s@.len(),
                s@ == self.source(),
                forall|k: int| 0 <= k < r@.len() ==> (#[trigger] r@[k]) < i && s@[r@[k] as int]
                    == '\\',
                forall|j: int|
                    0 <= j < i && s@[j] == '\\' ==> exists|k: int| 0 <= k < r@.len() && r@[k] == j,
                forall|a: int, b: int| 0 <= a < b < r@.len() ==> r@[a] < r@[b],
            decreases s@.len() - i,
        {
            let ghost r0 = r@;
            if s[i] == '\\' {
                r.push(i);
                proof {
                    assert(r@[r@.len() - 1] == i);
                    assert forall|j: int|
                        0 <= j < i + 1 && s@[j] == '\\' implies exists|k: int|
                            0 <= k < r@.len() && r@[k] == j by {
                        if j < i {
                            let k = choose|k: int| 0 <= k < r0.len() && r0[k] == j;
                            assert(r@[k] == r0[k]);
                        } else {
                            assert(r@[r@.len() - 1] == j);
                        }
                    }
                }
            }
            i = i + 1;
        }
        r
    }

    /// The characters with the line continuations removed.
    pub fn chars(&self) -> (r: UnescapeIter)
        ensures
            r.rest() == unescape(self.source()),
    {
        UnescapeIter { chars: chars_of(self.src), pos: 0 }
    }

    /// The text with the line continuations removed.
    pub fn to_string(self) -> (r: String)
        ensures
            r@ == unescape(self.source()),
    {
        if self.backslashes().len() == 0 {
            proof {
                assert forall|k: int| 0 <= k < self.source().len() implies self.source()[k]
                    != '\\' by {
                    if self.source()[k] == '\\' {
                    }
                }
                lemma_no_backslash(self.source(), 0);
                assert(self.source().skip(0) =~= self.source());
            }
            self.src.to_owned()
        } else {
            let v = self.chars().collect_chars();
            string_of_chars(&v)
        }
    }

    /// Whether the text with the line continuations removed equals `other`.
    pub fn eq_str(&self, other: &str) -> (r: bool)
        ensures
            r == (unescape(self.source()) == other@),
    {
        let v = self.chars().collect_chars();
        let o = chars_of(other);
        if v.len() != o.len() {
            return false;
        }
        let mut i: usize = 0;
        while i < v.len()
            invariant
                v@.len() == o@.len(),
                v@ == unescape(self.source()),
                o@ == other@,
                i <= v@.len(),
                forall|k: int| 0 <= k < i ==> v@[k] == o@[k],
            decreases v@.len() - i,
        {
            if v[i] != o[i] {
                proof {
                    assert(v@[i as int] != o@[i as int]);
                    assert(v@ != o@);
                }
                return false;
            }
            i = i + 1;
        }
        proof {
            assert(v@ =~= o@);
        }
        true
    }
}

proof fn lemma_unescape_shift(p: Seq<char>, q: Seq<char>, j: int)
    requires
        0 <= j <= q.len(),
    ensures
        unescape_from(p + q, p.len() + j) == unescape_from(q, j),
    decreases q.len() - j,
{
    let t = p + q;
    let i = p.len() + j;
    if j < q.len() {
        assert(t[i] == q[j]);
        if i + 1 < t.len() {
            assert(t[i + 1] == q[j + 1]);
        }
        if i + 2 < t.len() {
            assert(t[i + 2] == q[j + 2]);
        }
        assert(cont_width(t, i) == cont_width(q, j));
        if cont_width(q, j) > 0 {
            lemma_unescape_shift(p, q, j + cont_width(q, j));
        } else {
            lemma_unescape_shift(p, q, j + 1);
        }
    }
}

/// Neither a backslash nor a newline character.
pub open spec fn plain_char(c: char) -> bool {
    c != '\\' && c != '\n' && c != '\r'
}

/// A line continuation inserted between two characters that are neither backslashes nor
/// newlines (as inside an identifier or a run of blanks) is invisible: the text read with
/// continuations removed is the same.
pub proof fn lemma_continuation_invisible(s: Seq<char>, k: int)
    requires
        0 <= k <= s.len(),
        k > 0 ==> plain_char(s[k - 1]),
        k < s.len() ==> plain_char(s[k]),
    ensures
        unescape(s.subrange(0, k) + seq!['\\', '\n'] + s.subrange(k, s.len() as int)) == unescape(
            s,
        ),
{
    let a = s.subrange(0, k);
    let q = s.subrange(k, s.len() as int);
    let t = a + seq!['\\', '\n'] + q;
    assert(t =~= (a + seq!['\\', '\n']) + q);
    lemma_unescape_shift(a + seq!['\\', '\n'], q, 0);
    assert(t[k] == '\\' && t[k + 1] == '\n');
    if k < s.len() {
        assert(t[k + 2] == s[k]);
    }
    assert(cont_width(t, k) == 2);
    assert(unescape_from(t, k) == unescape_from(t, k + 2));
    lemma_unescape_shift(a, q, 0);
    assert(s =~= a + q);
    assert(unescape_from(t, k + 2) == unescape_from(q, 0));
    assert(unescape_from(s, k) == unescape_from(q, 0));
    assert forall|m: int| 0 <= m < k implies s[m] == t[m] by {
        assert(t[m] == a[m]);
    }
    lemma_prefix_agrees(s, t, k, 0);
}

/// Below `k`, `t` reads as `s` does, given that both read alike from `k` on.
proof fn lemma_prefix_agrees(s: Seq<char>, t: Seq<char>, k: int, i: int)
    requires
        0 <= i <= k <= s.len(),
        k + 2 <= t.len(),
        forall|m: int| 0 <= m < k ==> s[m] == t[m],
        k > 0 ==> plain_char(s[k - 1]),
        t[k] == '\\',
        unescape_from(t, k) == unescape_from(s, k),
    ensures
        unescape_from(t, i) == unescape_from(s, i),
    decreases k - i,
{
    if i < k {
        assert(s[i] == t[i]);
        if i + 1 < k {
            assert(s[i + 1] == t[i + 1]);
        }
        if i + 2 < k {
            assert(s[i + 2] == t[i + 2]);
        }
        if i == k - 1 {
            assert(cont_width(s, i) == 0 && cont_width(t, i) == 0);
        } else if i == k - 2 {
            assert(plain_char(s[k - 1]));
            assert(cont_width(s, i) == cont_width(t, i));
        } else {
            assert(cont_width(s, i) == cont_width(t, i));
        }
        let w = cont_width(s, i);
        if w > 0 {
            lemma_prefix_agrees(s, t, k, i + w);
        } else {
            lemma_prefix_agrees(s, t, k, i + 1);
        }
    }
}

} // verus!
