//! The ordered collection of to-do entries and its operations.

use vstd::prelude::*;

use crate::render::dec_digits;
use crate::render::usize_to_string;
use crate::todo::Todo;
use crate::todo::TodoView;
use crate::todo::is_substring_of;
use crate::todo::item_render;
use crate::todo::toggled;

verus! {

/// One rendered listing line: the 1-based position `n`, a dot and a
/// space, the entry's own rendering, and a newline.
pub open spec fn spec_line(v: TodoView, n: nat) -> Seq<char> {
    dec_digits(n) + ". "@ + item_render(v) + "\n"@
}

/// The rendered lines for the entries of `s` from position `i` on.
pub open spec fn listing_from(s: Seq<TodoView>, i: int) -> Seq<char>
    decreases s.len() - i,
{
    if 0 <= i < s.len() {
        spec_line(s[i], (i + 1) as nat) + listing_from(s, i + 1)
    } else {
        Seq::<char>::empty()
    }
}

/// The rendered listing of the whole of `s`: one numbered line per
/// entry, in order; empty for the empty list.
pub open spec fn listing_render(s: Seq<TodoView>) -> Seq<char> {
    listing_from(s, 0)
}

/// The query `q` matches the entry `v`: `q` is a substring of its name.
pub open spec fn todo_matches(v: TodoView, q: Seq<char>) -> bool {
    is_substring_of(q, v.name)
}

/// Some entry of `s` matches `q`.
pub open spec fn has_match(s: Seq<TodoView>, q: Seq<char>) -> bool {
    exists|i: int| 0 <= i < s.len() && todo_matches(s[i], q)
}

/// `i` is the position of the first entry of `s` that matches `q`.
pub open spec fn is_first_match(s: Seq<TodoView>, q: Seq<char>, i: int) -> bool {
    &&& 0 <= i < s.len()
    &&& todo_matches(s[i], q)
    &&& forall|j: int| 0 <= j < i ==> !todo_matches(s[j], q)
}

/// The list after toggling the completion flag of the first entry that
/// matches `q`; the list unchanged when no entry matches.
pub open spec fn complete_by_name_spec(s: Seq<TodoView>, q: Seq<char>) -> Seq<TodoView> {
    if has_match(s, q) {
        let i = choose|i: int| is_first_match(s, q, i);
        s.update(i, toggled(s[i]))
    } else {
        s
    }
}

/// The list with every entry that matches `q` removed, in order.
pub open spec fn remove_matching(s: Seq<TodoView>, q: Seq<char>) -> Seq<TodoView>
    decreases s.len(),
{
    if s.len() == 0 {
        s
    } else if todo_matches(s[0], q) {
        remove_matching(s.drop_first(), q)
    } else {
        seq![s[0]] + remove_matching(s.drop_first(), q)
    }
}

/// When some entry matches, some entry is also the first to match.
pub proof fn lemma_first_match_exists(s: Seq<TodoView>, q: Seq<char>)
    requires
        has_match(s, q),
    ensures
        exists|i: int| is_first_match(s, q, i),
    decreases s.len(),
{
    if todo_matches(s[0], q) {
        assert(is_first_match(s, q, 0));
    } else {
        let w = choose|i: int| 0 <= i < s.len() && todo_matches(s[i], q);
        assert(s.drop_first()[w - 1] == s[w]);
        assert(has_match(s.drop_first(), q));
        lemma_first_match_exists(s.drop_first(), q);
        let i0 = choose|i: int| is_first_match(s.drop_first(), q, i);
        assert(forall|j: int| 1 <= j < i0 + 1 ==> s[j] == s.drop_first()[j - 1]);
        assert(is_first_match(s, q, i0 + 1));
    }
}

/// At most one position is the first match.
pub proof fn lemma_first_match_unique(s: Seq<TodoView>, q: Seq<char>, i: int, j: int)
    requires
        is_first_match(s, q, i),
        is_first_match(s, q, j),
    ensures
        i == j,
{
}

/// Why a collection operation was refused.
#[derive(Debug, PartialEq, Eq, Structural)]
pub enum TodoError {
    /// A 1-based index argument was `0`.
    InvalidIndex,
}

impl TodoError {
    /// A human-readable description of the error.
    pub fn message(&self) -> (r: &'static str)
        ensures
            r@ == "Index must be greater than 0"@,
    {
        match self {
            TodoError::InvalidIndex => "Index must be greater than 0",
        }
    }
}

/// The ordered list of to-do entries. Order is significant: entries are
/// addressed by 1-based position, and removal keeps the relative order of
/// the remaining entries.
pub struct Todos {
    pub list: Vec<Todo>,
}

impl View for Todos {
    type V = Seq<TodoView>;

    open spec fn view(&self) -> Seq<TodoView> {
        self.list.deep_view()
    }
}

impl Todos {
    /// Creates an empty collection.
    pub fn new() -> (r: Self)
        ensures
            r@ == Seq::<TodoView>::empty(),
    {
        let r = Self { list: Vec::new() };
        proof {
            assert(r@ =~= Seq::<TodoView>::empty());
        }
        r
    }

    /// Appends a new, not yet completed entry with the given name.
    pub fn add_todo(&mut self, name: &str)
        ensures
            final(self)@ == old(self)@.push(TodoView { name: name@, completed: false }),
    {
        self.list.push(Todo::new(name));
        proof {
            assert(final(self)@ =~= old(self)@.push(
                TodoView { name: name@, completed: false },
            ));
        }
    }

    /// Toggles the completion flag of the first entry (in order) whose
    /// name contains `search` as a substring; a no-op when none matches.
    pub fn complete_by_name(&mut self, search: &str)
        ensures
            final(self)@ == complete_by_name_spec(old(self)@, search@),
    {
        let mut i: usize = 0;
        while i < self.list.len()
            invariant
                self == old(self),
                i <= self@.len(),
                forall|k: int| 0 <= k < i ==> !todo_matches(self@[k], search@),
            decreases self@.len() - i,
        {
            if self.list[i].match_on_name(search) {
                proof {
                    assert(is_first_match(old(self)@, search@, i as int));
                    let w = choose|k: int| is_first_match(old(self)@, search@, k);
                    lemma_first_match_unique(old(self)@, search@, w, i as int);
                }
                let entry = &mut self.list[i];
                entry.toggle_complete();
                proof {
                    assert(final(self)@ =~= old(self)@.update(
                        i as int,
                        toggled(old(self)@[i as int]),
                    ));
                }
                return;
            }
            i = i + 1;
        }
        assert(!has_match(old(self)@, search@));
    }

    /// Removes every entry whose name contains `name` as a substring,
    /// keeping the relative order of the remaining entries; a no-op when
    /// none matches.
    pub fn delete_todo_by_name(&mut self, name: &str)
        ensures
            final(self)@ == remove_matching(old(self)@, name@),
    {
        let ghost orig = old(self)@;
        let mut kept: Vec<Todo> = Vec::new();
        proof {
            assert(kept.deep_view() + remove_matching(orig, name@)
                =~= remove_matching(orig, name@));
        }
        while self.list.len() > 0
            invariant
                kept.deep_view() + remove_matching(self.list.deep_view(), name@)
                    == remove_matching(orig, name@),
            decreases self.list.len(),
        {
            let ghost before = self.list.deep_view();
            let ghost kept_before = kept.deep_view();
            let entry = self.list.remove(0);
            proof {
                assert(self.list.deep_view() =~= before.drop_first());
                assert(entry@ == before[0]);
            }
            if !entry.match_on_name(name) {
                kept.push(entry);
                proof {
                    assert(kept.deep_view() =~= kept_before.push(entry@));
                    assert(kept.deep_view() + remove_matching(self.list.deep_view(), name@)
                        =~= kept_before + remove_matching(before, name@));
                }
            }
        }
        proof {
            assert(self.list.deep_view() =~= Seq::<TodoView>::empty());
            assert(kept.deep_view() + remove_matching(self.list.deep_view(), name@)
                =~= kept.deep_view());
        }
        self.list = kept;
    }

    /// Removes the single entry at 1-based position `index`. An index of
    /// `0` is refused; an index past the end is a silent no-op.
    pub fn delete_todo_by_index(&mut self, index_to_delete: usize) -> (r: Result<(), TodoError>)
        ensures
            index_to_delete == 0 ==> r == Err::<(), TodoError>(TodoError::InvalidIndex)
                && final(self)@ == old(self)@,
            index_to_delete > old(self)@.len() ==> r == Ok::<(), TodoError>(())
                && final(self)@ == old(self)@,
            1 <= index_to_delete <= old(self)@.len() ==> r == Ok::<(), TodoError>(())
                && final(self)@ == old(self)@.remove(index_to_delete - 1),
    {
        if index_to_delete == 0 {
            return Err(TodoError::InvalidIndex);
        }

        if self.list.len() < index_to_delete {
            return Ok(());
        }

        let _removed = self.list.remove(index_to_delete - 1);
        proof {
            assert(final(self)@ =~= old(self)@.remove(index_to_delete - 1));
        }
        Ok(())
    }

    /// Toggles the completion flag of the entry at 1-based position
    /// `index`. An index of `0` is refused; an index past the end is a
    /// silent no-op.
    pub fn complete_by_index(&mut self, index: usize) -> (r: Result<(), TodoError>)
        ensures
            index == 0 ==> r == Err::<(), TodoError>(TodoError::InvalidIndex)
                && final(self)@ == old(self)@,
            index > old(self)@.len() ==> r == Ok::<(), TodoError>(())
                && final(self)@ == old(self)@,
            1 <= index <= old(self)@.len() ==> r == Ok::<(), TodoError>(())
                && final(self)@ == old(self)@.update(index - 1, toggled(old(self)@[index - 1])),
    {
        if index == 0 {
            return Err(TodoError::InvalidIndex);
        }

        if self.list.len() < index {
            return Ok(());
        }

        let entry = &mut self.list[index - 1];
        entry.toggle_complete();
        proof {
            assert(final(self)@ =~= old(self)@.update(
                index - 1,
                toggled(old(self)@[index - 1]),
            ));
        }
        Ok(())
    }

    /// Renders the whole list as numbered lines, one entry per line, in
    /// order; the empty list renders as the empty string.
    pub fn render(&self) -> (r: String)
        ensures
            r@ == listing_render(self@),
    {
        let mut out = String::new();
        let mut i: usize = 0;
        while i < self.list.len()
            invariant
                i <= self@.len(),
                out@ + listing_from(self@, i as int) == listing_render(self@),
            decreases self@.len() - i,
        {
            let ghost out0 = out@;
            let ghost i0 = i as int;
            let num = usize_to_string(i + 1);
            out.append(num.as_str());
            out.append(". ");
            let line = self.list[i].render();
            out.append(line.as_str());
            out.append("\n");
            i = i + 1;
            proof {
                assert(self.list[i0]@ == self@[i0]);
                assert(out@ =~= out0 + spec_line(self@[i0], (i0 + 1) as nat));
                assert(out@ + listing_from(self@, i as int)
                    =~= out0 + listing_from(self@, i0));
            }
        }
        proof {
            assert(out@ =~= listing_render(self@));
        }
        out
    }

    /// The store-independent part of loading: a missing store (`None`)
    /// yields an empty collection together with the demand that the store
    /// be created; a decoded store yields its entries unchanged, in order.
    pub fn load_records(stored: Option<Vec<Todo>>) -> (r: (Todos, bool))
        ensures
            stored is None ==> r.0@ == Seq::<TodoView>::empty() && r.1,
            stored matches Some(list) ==> r.0@ == list.deep_view() && !r.1,
    {
        match stored {
            None => (Todos::new(), true),
            Some(list) => (Todos { list }, false),
        }
    }
}

/// Law: completing by name twice with the same query restores the list.
/// The first toggle and the second toggle land on the same entry, since
/// toggling does not change any name.
pub proof fn lemma_complete_by_name_twice_restores(s: Seq<TodoView>, q: Seq<char>)
    ensures
        complete_by_name_spec(complete_by_name_spec(s, q), q) == s,
{
    if has_match(s, q) {
        lemma_first_match_exists(s, q);
        let i = choose|i: int| is_first_match(s, q, i);
        let s2 = s.update(i, toggled(s[i]));
        assert(s2[i].name == s[i].name);
        assert(forall|j: int| 0 <= j < s.len() ==> s2[j].name == s[j].name);
        assert(todo_matches(s2[i], q));
        assert(has_match(s2, q));
        assert(is_first_match(s2, q, i));
        let i2 = choose|k: int| is_first_match(s2, q, k);
        lemma_first_match_unique(s2, q, i2, i);
        assert(complete_by_name_spec(s2, q) =~= s);
    }
}

} // verus!
