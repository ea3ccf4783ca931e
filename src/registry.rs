//! The server's registry of commands, keyed by small integer handles.
use vstd::prelude::*;
use crate::decimal::{decimal, push_decimal};
use crate::template::{render_template, Tokens};
use crate::text::push_char;

verus! {

/// A registered command: its template, its number of slots, and the state
/// that its slots share.
pub struct Registered<T> {
    pub command: Tokens,
    pub slots: usize,
    pub state: T,
}

/// Registered commands, by handle. A vacant handle is `None`.
pub struct Registry<T> {
    pub commands: Vec<Option<Registered<T>>>,
}

/// The index of the first vacant handle, or the length if there is none.
pub open spec fn first_vacant<T>(s: Seq<Option<T>>) -> int
    decreases s.len(),
{
    if s.len() == 0 {
        0
    } else if s[0] is None {
        0
    } else {
        1 + first_vacant(s.drop_first())
    }
}

/// How a command is listed: `<handle>: <template>`.
pub open spec fn listing_line<T>(id: nat, c: Registered<T>) -> Seq<char> {
    decimal(id) + seq![':', ' '] + render_template(c.command@)
}

/// The lines of the registered commands, in handle order, parted by newlines.
pub open spec fn listing_lines<T>(s: Seq<Option<Registered<T>>>) -> Seq<char>
    decreases s.len(),
{
    if s.len() == 0 {
        seq![]
    } else {
        let p = listing_lines(s.drop_last());
        match s.last() {
            None => p,
            Some(c) => if p.len() == 0 {
                listing_line((s.len() - 1) as nat, c)
            } else {
                p.push('\n') + listing_line((s.len() - 1) as nat, c)
            },
        }
    }
}

/// What `get comms` answers: the listing, or `no jobs available`.
pub open spec fn listing_text<T>(s: Seq<Option<Registered<T>>>) -> Seq<char> {
    if listing_lines(s).len() == 0 {
        "no jobs available"@
    } else {
        listing_lines(s)
    }
}

proof fn lemma_first_vacant<T>(s: Seq<Option<T>>, i: int)
    ensures
        0 <= first_vacant(s) <= s.len(),
        first_vacant(s) < s.len() ==> s[first_vacant(s)] is None,
        0 <= i < first_vacant(s) ==> s[i] is Some,
        (0 <= i <= s.len() && (i < s.len() ==> s[i] is None) && forall|j: int|
            0 <= j < i ==> s[j] is Some) ==> first_vacant(s) == i,
    decreases s.len(),
{
    if s.len() > 0 && s[0] is Some {
        let t = s.drop_first();
        lemma_first_vacant(t, i - 1);
        if 0 <= i <= s.len() && (i < s.len() ==> s[i] is None) && forall|j: int|
            0 <= j < i ==> s[j] is Some {
            assert(i > 0);
            assert forall|j: int| 0 <= j < i - 1 implies t[j] is Some by {
                assert(t[j] == s[j + 1]);
            }
        }
    } else if s.len() > 0 {
        if 0 <= i <= s.len() && (i < s.len() ==> s[i] is None) && forall|j: int|
            0 <= j < i ==> s[j] is Some {
            if i > 0 {
                assert(s[0] is Some);
            }
        }
    }
}

impl<T> Registry<T> {
    /// A registry with no command.
    pub fn new() -> (r: Registry<T>)
        ensures
            r.commands@ == Seq::<Option<Registered<T>>>::empty(),
    {
        Registry { commands: Vec::new() }
    }

    /// Registers a command under the lowest vacant handle, or a new one at
    /// the end, and gives that handle. No handle in use is given again.
    pub fn register(&mut self, command: Registered<T>) -> (r: usize)
        ensures
            r == first_vacant(old(self).commands@),
            r <= old(self).commands@.len(),
            r < old(self).commands@.len() ==> final(self).commands@ == old(self).commands@.update(
                r as int,
                Some(command),
            ),
            r == old(self).commands@.len() ==> final(self).commands@ == old(
                self,
            ).commands@.push(Some(command)),
            old(self).commands@.len() <= r || old(self).commands@[r as int] is None,
    {
        let n = self.commands.len();
        let mut i: usize = 0;
        while i < n && self.commands[i].is_some()
            invariant
                n == self.commands@.len(),
                self.commands@ == old(self).commands@,
                0 <= i <= n,
                forall|j: int| 0 <= j < i ==> self.commands@[j] is Some,
            decreases n - i,
        {
            i = i + 1;
        }
        proof {
            lemma_first_vacant(self.commands@, i as int);
        }
        if i < n {
            self.commands.set(i, Some(command));
        } else {
            self.commands.push(Some(command));
        }
        i
    }

    /// The command registered under `id`, if any.
    pub fn get(&self, id: usize) -> (r: Option<&Registered<T>>)
        ensures
            id < self.commands@.len() && self.commands@[id as int] is Some ==> r == Some(
                &self.commands@[id as int]->0,
            ),
            !(id < self.commands@.len() && self.commands@[id as int] is Some) ==> r is None,
    {
        if id < self.commands.len() {
            match &self.commands[id] {
                Some(c) => Some(c),
                None => None,
            }
        } else {
            None
        }
    }

    /// Frees handle `id` and gives back what was registered there.
    pub fn remove(&mut self, id: usize) -> (r: Option<Registered<T>>)
        ensures
            id < old(self).commands@.len() ==> r == old(self).commands@[id as int]
                && final(self).commands@ == old(self).commands@.update(id as int, None),
            id >= old(self).commands@.len() ==> r is None && final(self).commands@ == old(
                self,
            ).commands@,
    {
        if id < self.commands.len() {
            let mut slot: Option<Registered<T>> = None;
            std::mem::swap(&mut slot, &mut self.commands[id]);
            slot
        } else {
            None
        }
    }

    /// The answer to `get comms`: `<handle>: <template>` for each registered
    /// command, one per line, or `no jobs available` when there is none.
    pub fn listing(&self) -> (r: String)
        ensures
            r@ == listing_text(self.commands@),
    {
        let mut r = String::new();
        let mut i: usize = 0;
        let n = self.commands.len();
        while i < n
            invariant
                n == self.commands@.len(),
                i <= n,
                r@ == listing_lines(self.commands@.take(i as int)),
            decreases n - i,
        {
            let ghost s = self.commands@.take(i as int + 1);
            assert(s.drop_last() == self.commands@.take(i as int));
            assert(s.last() == self.commands@[i as int]);
            match &self.commands[i] {
                Some(c) => {
                    if !r.as_str().is_empty() {
                        push_char(&mut r, '\n');
                    }
                    push_decimal(&mut r, i);
                    push_char(&mut r, ':');
                    push_char(&mut r, ' ');
                    let t = c.command.to_string();
                    r.append(t.as_str());
                },
                None => {},
            }
            assert(r@ =~= listing_lines(s));
            i = i + 1;
        }
        assert(self.commands@.take(n as int) == self.commands@);
        if r.as_str().is_empty() {
            let mut e = String::new();
            e.append("no jobs available");
            e
        } else {
            r
        }
    }
}

} // verus!
