//! The diagnostic message log: an ordered list of lines and the single
//! newline-joined buffer a display draws from.  How the buffer is shown is
//! presentation and lives outside this library; what it contains is
//! defined and maintained here.

use vstd::prelude::*;
use vstd::string::StringExecFns;

verus! {

broadcast use vstd::seq_lib::group_seq_lib_default, vstd::seq::group_seq_axioms;

/// The lines joined for display: each message after the first separated by
/// a newline, except that nothing is added after messages that left the
/// buffer empty.
pub open spec fn joined(msgs: Seq<Seq<char>>) -> Seq<char>
    decreases msgs.len(),
{
    if msgs.len() == 0 {
        Seq::empty()
    } else {
        let b = joined(msgs.drop_last());
        if b.len() == 0 {
            msgs.last()
        } else {
            b + seq!['\n'] + msgs.last()
        }
    }
}

/// Whether one of the messages reads the same as `m`.
pub open spec fn has_message(msgs: Seq<Seq<char>>, m: Seq<char>) -> bool {
    exists|i: int| 0 <= i < msgs.len() && msgs[i] == m
}

/// The message log.
#[derive(Debug)]
pub struct Logger {
    messages: Vec<String>,
    buffer: String,
}

impl Logger {
    /// The recorded messages, oldest first.
    pub closed spec fn messages_view(&self) -> Seq<Seq<char>> {
        self.messages@.map_values(|s: String| s@)
    }

    /// The display buffer.
    pub closed spec fn buffer_view(&self) -> Seq<char> {
        self.buffer@
    }

    /// The buffer always reads as the joined messages.
    pub open spec fn wf(&self) -> bool {
        self.buffer_view() == joined(self.messages_view())
    }

    pub fn new() -> (l: Self)
        ensures
            l.wf(),
            l.messages_view() =~= Seq::<Seq<char>>::empty(),
    {
        Self { messages: Vec::new(), buffer: String::new() }
    }

    /// Appends the message unconditionally.
    pub fn push(&mut self, message: String)
        requires
            old(self).wf(),
        ensures
            final(self).wf(),
            final(self).messages_view() == old(self).messages_view().push(message@),
    {
        if !self.buffer.as_str().is_empty() {
            self.buffer.append("\n");
        }
        self.buffer.append(message.as_str());
        self.messages.push(message);
        proof {
            reveal_strlit("\n");
            assert("\n"@ =~= seq!['\n']);
            let mv = old(self).messages_view();
            assert(self.messages_view() =~= mv.push(message@));
            assert(self.messages_view().drop_last() =~= mv);
            if joined(mv).len() == 0 {
                assert(self.buffer_view() =~= joined(self.messages_view()));
            } else {
                assert(self.buffer_view() =~= joined(mv) + seq!['\n'] + message@);
            }
        }
    }

    /// Whether a message reading the same is already recorded.
    fn contains_message(&self, message: &String) -> (r: bool)
        ensures
            r == has_message(self.messages_view(), message@),
    {
        let mut i: usize = 0;
        while i < self.messages.len()
            invariant
                i <= self.messages@.len(),
                forall|k: int| 0 <= k < i ==> self.messages_view()[k] != message@,
            decreases self.messages@.len() - i,
        {
            if self.messages[i] == *message {
                proof {
                    assert(self.messages_view()[i as int] == message@);
                }
                return true;
            }
            i = i + 1;
        }
        false
    }

    /// Appends the message unless one reading the same is already there.
    pub fn push_if_unique(&mut self, message: String)
        requires
            old(self).wf(),
        ensures
            final(self).wf(),
            final(self).messages_view() == if has_message(
                old(self).messages_view(),
                message@,
            ) {
                old(self).messages_view()
            } else {
                old(self).messages_view().push(message@)
            },
    {
        if !self.contains_message(&message) {
            self.push(message);
        }
    }

    /// Appends the message unless one reading the same is already there.
    pub fn insert(&mut self, message: String)
        requires
            old(self).wf(),
        ensures
            final(self).wf(),
            final(self).messages_view() == if has_message(
                old(self).messages_view(),
                message@,
            ) {
                old(self).messages_view()
            } else {
                old(self).messages_view().push(message@)
            },
    {
        self.push_if_unique(message);
    }

    /// Drops every message.
    pub fn clear(&mut self)
        ensures
            final(self).wf(),
            final(self).messages_view() =~= Seq::<Seq<char>>::empty(),
    {
        self.messages.clear();
        self.buffer = String::new();
    }

    pub fn len(&self) -> (n: usize)
        ensures
            n == self.messages_view().len(),
    {
        self.messages.len()
    }

    pub fn is_empty(&self) -> (r: bool)
        ensures
            r == (self.messages_view().len() == 0),
    {
        self.messages.is_empty()
    }

    /// The recorded message at the index.
    pub fn message(&self, index: usize) -> (r: &String)
        requires
            index < self.messages_view().len(),
        ensures
            r@ == self.messages_view()[index as int],
    {
        &self.messages[index]
    }

    /// The display buffer as it stands.
    pub fn buffer(&self) -> (r: &String)
        ensures
            r@ == self.buffer_view(),
    {
        &self.buffer
    }

    /// Rewrites the message at the index and rebuilds the buffer.
    pub fn set_message(&mut self, index: usize, message: String)
        requires
            old(self).wf(),
            index < old(self).messages_view().len(),
        ensures
            final(self).wf(),
            final(self).messages_view() == old(self).messages_view().update(
                index as int,
                message@,
            ),
    {
        self.messages[index] = message;
        self.update_buffer();
        proof {
            assert(self.messages_view() =~= old(self).messages_view().update(
                index as int,
                message@,
            ));
        }
    }

    /// Rebuilds the buffer as the joined messages.
    fn update_buffer(&mut self)
        ensures
            final(self).messages_view() == old(self).messages_view(),
            final(self).buffer_view() == joined(final(self).messages_view()),
    {
        self.buffer = String::new();
        let mut i: usize = 0;
        while i < self.messages.len()
            invariant
                i <= self.messages@.len(),
                self.messages@ == old(self).messages@,
                self.buffer@ == joined(self.messages_view().take(i as int)),
            decreases self.messages@.len() - i,
        {
            proof {
                reveal_strlit("\n");
                assert("\n"@ =~= seq!['\n']);
                assert(self.messages_view().take(i as int + 1).drop_last()
                    =~= self.messages_view().take(i as int));
                assert(self.messages_view().take(i as int + 1).last() == self.messages_view()[
                    i as int]);
            }
            if !self.buffer.as_str().is_empty() {
                self.buffer.append("\n");
            }
            let m = &self.messages[i];
            self.buffer.append(m.as_str());
            proof {
                if joined(self.messages_view().take(i as int)).len() == 0 {
                    assert(self.buffer@ =~= joined(self.messages_view().take(i as int + 1)));
                } else {
                    assert(self.buffer@ =~= joined(self.messages_view().take(i as int + 1)));
                }
            }
            i = i + 1;
        }
        proof {
            assert(self.messages_view().take(self.messages@.len() as int)
                =~= self.messages_view());
        }
    }
}

} // verus!
