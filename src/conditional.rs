//! The stack of open conditional-compilation blocks (`#if` ... `#endif`).
use vstd::prelude::*;

verus! {

/// One open conditional block.
#[derive(Debug, Clone, Copy, PartialEq, Eq, Structural)]
pub struct ConditionalFrame {
    /// Whether one of the block's branches so far had a true condition.
    pub taken: bool,
    /// Whether the block's `#else` has been seen.
    pub else_seen: bool,
    /// Whether the text around the block is active.
    pub parent_active: bool,
    /// Whether the current branch is active.
    pub active: bool,
}

/// Misuse of the conditional directives.
#[derive(Debug, Clone, Copy, PartialEq, Eq, Structural)]
pub enum ConditionalError {
    ElifWithoutIf,
    ElifAfterElse,
    ElseWithoutIf,
    ElseAfterElse,
    EndifWithoutIf,
    Unterminated,
}

/// Whether the text is active under a stack of open blocks.
pub open spec fn stack_active(s: Seq<ConditionalFrame>) -> bool {
    s.len() == 0 || s.last().active
}

/// The open conditional blocks, innermost last.
#[derive(Debug, Clone)]
pub struct Conditionals {
    frames: Vec<ConditionalFrame>,
}

impl Conditionals {
    pub closed spec fn frames(&self) -> Seq<ConditionalFrame> {
        self.frames@
    }

    /// No open block.
    pub fn new() -> (r: Conditionals)
        ensures
            r.frames() == Seq::<ConditionalFrame>::empty(),
    {
        Conditionals { frames: Vec::new() }
    }

    /// Whether the text at this point is active (not suppressed).
    pub fn is_active(&self) -> (r: bool)
        ensures
            r == stack_active(self.frames()),
    {
        let n = self.frames.len();
        n == 0 || self.frames[n - 1].active
    }

    /// Whether an `#elif` here would have its condition decide: the text around the
    /// innermost block is active and none of its branches has been taken.
    pub fn elif_decides(&self) -> (r: bool)
        ensures
            r == (self.frames().len() > 0 && self.frames().last().parent_active
                && !self.frames().last().taken),
    {
        let n = self.frames.len();
        n > 0 && self.frames[n - 1].parent_active && !self.frames[n - 1].taken
    }

    /// Number of open blocks.
    pub fn depth(&self) -> (r: usize)
        ensures
            r == self.frames().len(),
    {
        self.frames.len()
    }

    /// Opens a block whose first branch has condition `cond` (`#if`, `#ifdef`, `#ifndef`).
    pub fn open(&mut self, cond: bool)
        ensures
            final(self).frames() == old(self).frames().push(
                ConditionalFrame {
                    taken: cond,
                    else_seen: false,
                    parent_active: stack_active(old(self).frames()),
                    active: stack_active(old(self).frames()) && cond,
                },
            ),
    {
        let parent_active = self.is_active();
        self.frames.push(
            ConditionalFrame { taken: cond, else_seen: false, parent_active, active: parent_active && cond },
        );
    }

    /// Moves to an `#elif` branch with condition `cond`.
    pub fn elif(&mut self, cond: bool) -> (r: Result<(), ConditionalError>)
        ensures
            old(self).frames().len() == 0 ==> r == Err::<(), _>(ConditionalError::ElifWithoutIf),
            old(self).frames().len() > 0 && old(self).frames().last().else_seen ==> r == Err::<
                (),
                _,
            >(ConditionalError::ElifAfterElse),
            r is Err ==> final(self).frames() == old(self).frames(),
            r is Ok <==> old(self).frames().len() > 0 && !old(self).frames().last().else_seen,
            r is Ok ==> ({
                let f = old(self).frames().last();
                final(self).frames() == old(self).frames().drop_last().push(
                    ConditionalFrame {
                        taken: f.taken || cond,
                        else_seen: false,
                        parent_active: f.parent_active,
                        active: f.parent_active && !f.taken && cond,
                    },
                )
            }),
    {
        let n = self.frames.len();
        if n == 0 {
            return Err(ConditionalError::ElifWithoutIf);
        }
        let f = self.frames[n - 1];
        if f.else_seen {
            return Err(ConditionalError::ElifAfterElse);
        }
        self.frames.set(
            n - 1,
            ConditionalFrame {
                taken: f.taken || cond,
                else_seen: false,
                parent_active: f.parent_active,
                active: f.parent_active && !f.taken && cond,
            },
        );
        proof {
            assert(self.frames@ =~= old(self).frames().drop_last().push(self.frames@[n - 1]));
        }
        Ok(())
    }

    /// Moves to the `#else` branch.
    pub fn else_branch(&mut self) -> (r: Result<(), ConditionalError>)
        ensures
            old(self).frames().len() == 0 ==> r == Err::<(), _>(ConditionalError::ElseWithoutIf),
            old(self).frames().len() > 0 && old(self).frames().last().else_seen ==> r == Err::<
                (),
                _,
            >(ConditionalError::ElseAfterElse),
            r is Err ==> final(self).frames() == old(self).frames(),
            r is Ok <==> old(self).frames().len() > 0 && !old(self).frames().last().else_seen,
            r is Ok ==> ({
                let f = old(self).frames().last();
                final(self).frames() == old(self).frames().drop_last().push(
                    ConditionalFrame {
                        taken: true,
                        else_seen: true,
                        parent_active: f.parent_active,
                        active: f.parent_active && !f.taken,
                    },
                )
            }),
    {
        let n = self.frames.len();
        if n == 0 {
            return Err(ConditionalError::ElseWithoutIf);
        }
        let f = self.frames[n - 1];
        if f.else_seen {
            return Err(ConditionalError::ElseAfterElse);
        }
        self.frames.set(
            n - 1,
            ConditionalFrame {
                taken: true,
                else_seen: true,
                parent_active: f.parent_active,
                active: f.parent_active && !f.taken,
            },
        );
        proof {
            assert(self.frames@ =~= old(self).frames().drop_last().push(self.frames@[n - 1]));
        }
        Ok(())
    }

    /// Closes the innermost block (`#endif`).
    pub fn close(&mut self) -> (r: Result<(), ConditionalError>)
        ensures
            old(self).frames().len() == 0 ==> r == Err::<(), _>(ConditionalError::EndifWithoutIf)
                && final(self).frames() == old(self).frames(),
            old(self).frames().len() > 0 ==> r is Ok && final(self).frames() == old(
                self,
            ).frames().drop_last(),
    {
        match self.frames.pop() {
            Some(_) => Ok(()),
            None => Err(ConditionalError::EndifWithoutIf),
        }
    }

    /// Checks that no block is left open at the end of the input.
    pub fn finish(&self) -> (r: Result<(), ConditionalError>)
        ensures
            r is Ok <==> self.frames().len() == 0,
            r is Err ==> r == Err::<(), _>(ConditionalError::Unterminated),
    {
        if self.frames.len() == 0 {
            Ok(())
        } else {
            Err(ConditionalError::Unterminated)
        }
    }
}

} // verus!
