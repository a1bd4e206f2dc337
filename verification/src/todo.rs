//! A single to-do entry: a name and a completion flag.

use vstd::prelude::*;

verus! {

/// The mathematical model of a [`Todo`]: its name as a sequence of
/// characters, and its completion flag.
pub ghost struct TodoView {
    pub name: Seq<char>,
    pub completed: bool,
}

/// One to-do entry. The name is free text: empty or whitespace names are
/// accepted as-is, and two entries may share a name.
pub struct Todo {
    pub name: String,
    pub completed: bool,
}

impl View for Todo {
    type V = TodoView;

    open spec fn view(&self) -> TodoView {
        TodoView { name: self.name@, completed: self.completed }
    }
}

impl DeepView for Todo {
    type V = TodoView;

    open spec fn deep_view(&self) -> TodoView {
        self.view()
    }
}

/// The entry as it is after one toggle of its completion flag.
pub open spec fn toggled(v: TodoView) -> TodoView {
    TodoView { name: v.name, completed: !v.completed }
}

/// The rendered text of one entry: `[x] ` before the name when it is
/// completed, `[ ] ` when it is not.
pub open spec fn item_render(v: TodoView) -> Seq<char> {
    (if v.completed { "[x] "@ } else { "[ ] "@ }) + v.name
}

/// `q` occurs in `n` starting at position `i`.
pub open spec fn matches_at(q: Seq<char>, n: Seq<char>, i: int) -> bool {
    &&& 0 <= i
    &&& i + q.len() <= n.len()
    &&& forall|j: int| 0 <= j < q.len() ==> n[i + j] == q[j]
}

/// `q` is a (contiguous) substring of `n`.
pub open spec fn is_substring_of(q: Seq<char>, n: Seq<char>) -> bool {
    exists|i: int| matches_at(q, n, i)
}

impl Todo {
    /// Creates an entry with the given name, not yet completed.
    pub fn new(name: &str) -> (r: Self)
        ensures
            r@ == (TodoView { name: name@, completed: false }),
    {
        Self { name: name.to_owned(), completed: false }
    }

    /// Flips the completion flag; the name is untouched.
    pub fn toggle_complete(&mut self)
        ensures
            final(self)@ == toggled(old(self)@),
    {
        self.completed = !self.completed;
    }

    /// True exactly when `name` occurs in this entry's name as a
    /// substring (case-sensitive, character-wise).
    pub fn match_on_name(&self, name: &str) -> (r: bool)
        ensures
            r == is_substring_of(name@, self.name@),
    {
        let q_len = name.unicode_len();
        let n_len = self.name.as_str().unicode_len();
        if q_len > n_len {
            assert(forall|i: int| !matches_at(name@, self.name@, i));
            return false;
        }
        let mut i: usize = 0;
        while i <= n_len - q_len
            invariant
                q_len == name@.len(),
                n_len == self.name@.len(),
                q_len <= n_len,
                i <= n_len - q_len + 1,
                forall|k: int| 0 <= k < i ==> !matches_at(name@, self.name@, k),
            decreases n_len - q_len - i + 1,
        {
            let mut j: usize = 0;
            let mut mismatch = false;
            while j < q_len
                invariant
                    q_len == name@.len(),
                    n_len == self.name@.len(),
                    i + q_len <= n_len,
                    j <= q_len,
                    !mismatch ==> forall|j2: int| 0 <= j2 < j
                        ==> self.name@[i + j2] == name@[j2],
                    mismatch ==> !matches_at(name@, self.name@, i as int),
                decreases q_len - j,
            {
                if self.name.as_str().get_char(i + j) != name.get_char(j) {
                    mismatch = true;
                    j = q_len;
                } else {
                    j = j + 1;
                }
            }
            if !mismatch {
                assert(matches_at(name@, self.name@, i as int));
                return true;
            }
            i = i + 1;
        }
        assert(forall|k: int| !matches_at(name@, self.name@, k));
        false
    }

    /// Renders the entry as `[x] <name>` when completed, `[ ] <name>`
    /// otherwise.
    pub fn render(&self) -> (r: String)
        ensures
            r@ == item_render(self@),
    {
        let mut s = String::from_str(if self.completed { "[x] " } else { "[ ] " });
        s.append(self.name.as_str());
        s
    }
}

/// Law: toggling an entry's completion flag twice restores the entry.
pub proof fn lemma_toggle_twice_restores(v: TodoView)
    ensures
        toggled(toggled(v)) == v,
{
}

/// Law: the empty query is a substring of every name.
pub proof fn lemma_empty_query_matches(n: Seq<char>)
    ensures
        is_substring_of(Seq::<char>::empty(), n),
{
    assert(matches_at(Seq::<char>::empty(), n, 0));
}

} // verus!
