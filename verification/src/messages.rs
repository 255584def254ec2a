use vstd::prelude::*;
use vstd::string::StringExecFns;

use std::collections::VecDeque;

verus! {

struct Msg {
    s: String,
    seen: bool,
}

/// An ordered queue of log lines. Only the head line is shown; it is
/// removed solely by an explicit acknowledgement (`advance`), and while
/// any line is queued, gameplay keys are suppressed by `handle_key`.
///
/// The view is the queue's lines, oldest first, each paired with
/// whether the head has already been shown to the player.
pub struct Messages {
    msg: VecDeque<Msg>,
}

impl View for Messages {
    type V = Seq<(Seq<char>, bool)>;

    closed spec fn view(&self) -> Seq<(Seq<char>, bool)> {
        self.msg@.map_values(|m: Msg| (m.s@, m.seen))
    }
}

impl Default for Messages {
    fn default() -> (r: Messages)
        ensures
            r@ == Seq::<(Seq<char>, bool)>::empty(),
    {
        let r = Messages { msg: VecDeque::new() };
        proof {
            assert(r@ =~= Seq::<(Seq<char>, bool)>::empty());
        }
        r
    }
}

impl Messages {
    /// Append a line at the tail of the queue.
    pub fn add(&mut self, msg: String)
        ensures
            final(self)@ == old(self)@.push((msg@, false)),
    {
        let ghost pushed = msg@;
        self.msg.push_back(Msg { s: msg, seen: false });
        proof {
            assert(final(self)@ =~= old(self)@.push((pushed, false)));
        }
    }

    pub fn is_empty(&self) -> (r: bool)
        ensures
            r == (self@.len() == 0),
    {
        self.msg.len() == 0
    }

    /// The head line, suffixed with `" -More-"` when further lines
    /// wait behind it; marks the head as seen.
    pub fn current(&mut self) -> (r: Option<String>)
        ensures
            old(self)@.len() == 0 ==> r is None && final(self)@ == old(self)@,
            old(self)@.len() > 0 ==> {
                &&& final(self)@ == old(self)@.update(0, (old(self)@[0].0, true))
                &&& r is Some
                &&& r->0@ == old(self)@[0].0 + (if old(self)@.len() > 1 {
                    " -More-"@
                } else {
                    Seq::<char>::empty()
                })
            },
    {
        let more = self.msg.len() > 1;
        match self.msg.pop_front() {
            Some(m) => {
                let shown = Msg { s: m.s, seen: true };
                let mut result = shown.s.clone();
                if more {
                    result.append(" -More-");
                }
                self.msg.push_front(shown);
                proof {
                    assert(final(self)@ =~= old(self)@.update(0, (old(self)@[0].0, true)));
                    if old(self)@.len() <= 1 {
                        assert(result@ =~= old(self)@[0].0 + Seq::<char>::empty());
                    }
                }
                Some(result)
            },
            None => {
                proof {
                    assert(final(self)@ =~= old(self)@);
                }
                None
            },
        }
    }

    /// Acknowledge the head line: remove it. Does nothing on an empty
    /// queue.
    pub fn advance(&mut self)
        ensures
            old(self)@.len() > 0 ==> final(self)@ == old(self)@.drop_first(),
            old(self)@.len() == 0 ==> final(self)@ == old(self)@,
    {
        let popped = self.msg.pop_front();
        proof {
            if old(self)@.len() > 0 {
                assert(final(self)@ =~= old(self)@.drop_first());
            } else {
                assert(final(self)@ =~= old(self)@);
            }
        }
    }

    /// Whether the head line has already been shown.
    pub fn is_seen(&self) -> (r: bool)
        ensures
            r == (self@.len() > 0 && self@[0].1),
    {
        if self.msg.len() > 0 {
            self.msg[0].seen
        } else {
            false
        }
    }
}

} // verus!
