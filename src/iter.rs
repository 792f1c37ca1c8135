use vstd::prelude::*;
use crate::error::{Error, ERROR_NO_MORE_ITEMS, is_status_error, status_error};
use crate::key::RegKey;

verus! {

/// The abstract state of an enumeration: the index of the next entry to ask
/// the store for, and whether the enumeration has ended.
pub struct CursorState {
    pub index: nat,
    pub exhausted: bool,
}

/// The state of a fresh enumeration.
pub open spec fn initial_state() -> CursorState {
    CursorState { index: 0, exhausted: false }
}

/// One step of an enumeration, given the store's reply for the current
/// index: the next state, and what the step yields (`None` for the end).
/// Past the last representable index the enumeration ends after its entry.
pub open spec fn step<T>(st: CursorState, reply: Result<T, i32>) -> (CursorState, Option<
    Result<T, i32>,
>) {
    if st.exhausted {
        (st, None)
    } else {
        match reply {
            Ok(x) => if st.index < u32::MAX {
                (CursorState { index: st.index + 1, exhausted: false }, Some(Ok(x)))
            } else {
                (CursorState { index: st.index, exhausted: true }, Some(Ok(x)))
            },
            Err(c) => (
                CursorState { index: st.index, exhausted: true },
                if c == ERROR_NO_MORE_ITEMS {
                    None
                } else {
                    Some(Err(c))
                },
            ),
        }
    }
}

/// The reply of an unchanging store whose entries, in its order, are `entries`.
pub open spec fn listing_reply<T>(entries: Seq<T>, index: nat) -> Result<T, i32> {
    if index < entries.len() {
        Ok(entries[index as int])
    } else {
        Err(ERROR_NO_MORE_ITEMS)
    }
}

/// What `steps` successive steps from `st` yield against such a store.
pub open spec fn run<T>(st: CursorState, entries: Seq<T>, steps: nat) -> Seq<Option<Result<T, i32>>>
    decreases steps,
{
    if steps == 0 {
        seq![]
    } else {
        let (next, out) = step(st, listing_reply(entries, st.index));
        seq![out] + run(next, entries, (steps - 1) as nat)
    }
}

/// The entries of a listing, each as a successful step.
pub open spec fn yielded<T>(entries: Seq<T>) -> Seq<Option<Result<T, i32>>> {
    entries.map_values(|x: T| Some(Ok(x)))
}

/// `n` steps that yield nothing.
pub open spec fn ended<T>(n: nat) -> Seq<Option<Result<T, i32>>> {
    Seq::new(n, |i: int| None)
}

proof fn lemma_run_exhausted<T>(st: CursorState, entries: Seq<T>, steps: nat)
    requires
        st.exhausted,
    ensures
        run(st, entries, steps) == ended::<T>(steps),
    decreases steps,
{
    if steps > 0 {
        lemma_run_exhausted(st, entries, (steps - 1) as nat);
        assert(run(st, entries, steps) =~= ended::<T>(steps));
    }
}

proof fn lemma_run_from<T>(st: CursorState, entries: Seq<T>, extra: nat)
    requires
        !st.exhausted,
        st.index <= entries.len() <= u32::MAX,
    ensures
        run(st, entries, (entries.len() - st.index + extra) as nat) == yielded(
            entries.subrange(st.index as int, entries.len() as int),
        ) + ended::<T>(extra),
    decreases entries.len() - st.index + extra,
{
    let n = (entries.len() - st.index + extra) as nat;
    let rest = entries.subrange(st.index as int, entries.len() as int);
    if st.index < entries.len() {
        let next = CursorState { index: st.index + 1, exhausted: false };
        lemma_run_from(next, entries, extra);
        let tail = entries.subrange(next.index as int, entries.len() as int);
        assert(rest =~= seq![entries[st.index as int]] + tail);
        assert(yielded(rest) =~= seq![Some(Ok(entries[st.index as int]))] + yielded(tail));
        assert(run(st, entries, n) =~= yielded(rest) + ended::<T>(extra));
    } else if extra > 0 {
        let next = CursorState { index: st.index, exhausted: true };
        lemma_run_exhausted(next, entries, (extra - 1) as nat);
        assert(run(st, entries, n) =~= yielded(rest) + ended::<T>(extra));
    } else {
        assert(run(st, entries, n) =~= yielded(rest) + ended::<T>(extra));
    }
}

/// Enumerating an unchanging key yields each of its entries once, in the
/// store's order, and after them nothing, however many more steps are taken.
pub proof fn lemma_enumeration_yields_each_once<T>(entries: Seq<T>, extra: nat)
    requires
        entries.len() <= u32::MAX,
    ensures
        run(initial_state(), entries, entries.len() + extra) == yielded(entries) + ended::<T>(
            extra,
        ),
{
    lemma_run_from(initial_state(), entries, extra);
    assert(entries.subrange(0, entries.len() as int) =~= entries);
}

/// Enumerating a key without entries ends at once, without an error.
pub proof fn lemma_empty_enumeration<T>(steps: nat)
    ensures
        run(initial_state(), Seq::<T>::empty(), steps) == ended::<T>(steps),
{
    lemma_enumeration_yields_each_once(Seq::<T>::empty(), steps);
    assert(yielded(Seq::<T>::empty()) + ended::<T>(steps) =~= ended::<T>(steps));
}

/// The position of an enumeration of a key's subkeys or values.
pub struct Cursor {
    index: u32,
    exhausted: bool,
}

impl Cursor {
    pub closed spec fn state(&self) -> CursorState {
        CursorState { index: self.index as nat, exhausted: self.exhausted }
    }

    /// A cursor at the first entry.
    pub fn new() -> (r: Cursor)
        ensures
            r.state() == initial_state(),
    {
        Cursor { index: 0, exhausted: false }
    }

    /// The index to ask the store for next, or `None` once the enumeration
    /// has ended and no request is to be made.
    pub fn next_index(&self) -> (r: Option<u32>)
        ensures
            self.state().exhausted <==> r is None,
            r matches Some(i) ==> i as nat == self.state().index,
    {
        if self.exhausted {
            None
        } else {
            Some(self.index)
        }
    }

    /// Takes one step on the store's reply for the current index of the key at
    /// `path`: an entry is yielded, the end of the entries yields `None`, and
    /// any other status is yielded once as an error. The enumeration ends with
    /// the end of the entries or with an error, and stays ended.
    pub fn advance<T>(&mut self, path: &str, reply: Result<T, i32>) -> (r: Option<
        Result<T, Error>,
    >)
        ensures
            final(self).state() == step(old(self).state(), reply).0,
            match (r, step(old(self).state(), reply).1) {
                (None, None) => true,
                (Some(Ok(a)), Some(Ok(b))) => a == b,
                (Some(Err(e)), Some(Err(c))) => is_status_error(e, path@, c),
                _ => false,
            },
    {
        if self.exhausted {
            return None;
        }
        match reply {
            Ok(x) => {
                if self.index < u32::MAX {
                    self.index = self.index + 1;
                } else {
                    self.exhausted = true;
                }
                Some(Ok(x))
            },
            Err(c) => {
                self.exhausted = true;
                if c == ERROR_NO_MORE_ITEMS {
                    None
                } else {
                    Some(Err(status_error(path.to_owned(), c)))
                }
            },
        }
    }
}

/// An enumeration of the subkeys or values of a key. It borrows the key, so
/// the key cannot be dropped, nor its handle closed, while it lives; it holds
/// no native resource of its own.
pub struct Enumeration<'a, H> {
    key: &'a RegKey<H>,
    cursor: Cursor,
}

impl<'a, H> Enumeration<'a, H> {
    pub closed spec fn state(&self) -> CursorState {
        self.cursor.state()
    }

    pub closed spec fn parent(&self) -> &'a RegKey<H> {
        self.key
    }

    /// A fresh enumeration of `key`, at its first entry.
    pub fn new(key: &'a RegKey<H>) -> (r: Enumeration<'a, H>)
        ensures
            r.parent() == key,
            r.state() == initial_state(),
    {
        Enumeration { key, cursor: Cursor::new() }
    }

    /// The key being enumerated, whose handle the store requests go through.
    pub fn key(&self) -> (r: &'a RegKey<H>)
        ensures
            r == self.parent(),
    {
        self.key
    }

    /// The index to ask the store for next, or `None` once ended.
    pub fn next_index(&self) -> (r: Option<u32>)
        ensures
            self.state().exhausted <==> r is None,
            r matches Some(i) ==> i as nat == self.state().index,
    {
        self.cursor.next_index()
    }

    /// Takes one step on the store's reply; an error names the parent's path.
    pub fn advance<T>(&mut self, reply: Result<T, i32>) -> (r: Option<Result<T, Error>>)
        ensures
            final(self).parent() == old(self).parent(),
            final(self).state() == step(old(self).state(), reply).0,
            match (r, step(old(self).state(), reply).1) {
                (None, None) => true,
                (Some(Ok(a)), Some(Ok(b))) => a == b,
                (Some(Err(e)), Some(Err(c))) => is_status_error(
                    e,
                    old(self).parent().spec_path(),
                    c,
                ),
                _ => false,
            },
    {
        let path = self.key.to_string();
        self.cursor.advance(path.as_str(), reply)
    }
}

} // verus!
