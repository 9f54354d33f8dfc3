//! The filter engine: which dictionary words agree with the constraints.
use vstd::prelude::*;

verus! {

/// The mathematical content of a constraint state.
pub struct Constraints {
    /// Letters that occur nowhere in the solution.
    pub absent: Seq<char>,
    /// For each position, letters that are in the solution but not there.
    pub excluded: Seq<Seq<char>>,
    /// For each position, the letter known to stand there, if any.
    pub fixed: Seq<Option<char>>,
}

/// The views of a sequence of strings.
pub open spec fn strings_view(v: Seq<String>) -> Seq<Seq<char>> {
    v.map_values(|w: String| w@)
}

/// Every fixed position holds its letter in `w`.
pub open spec fn fixed_ok(w: Seq<char>, fixed: Seq<Option<char>>) -> bool {
    forall|i: int|
        0 <= i < fixed.len() && #[trigger] fixed[i] is Some ==> i < w.len() && w[i]
            == fixed[i]->0
}

/// Every letter excluded from a position is absent there and present elsewhere in `w`.
pub open spec fn exclusions_ok(w: Seq<char>, excluded: Seq<Seq<char>>) -> bool {
    forall|i: int, j: int|
        0 <= i < excluded.len() && 0 <= j < excluded[i].len() ==> !(i < w.len() && w[i]
            == #[trigger] excluded[i][j]) && w.contains(excluded[i][j])
}

/// No absent letter occurs in `w`.
pub open spec fn absent_ok(w: Seq<char>, absent: Seq<char>) -> bool {
    forall|k: int| 0 <= k < absent.len() ==> !w.contains(#[trigger] absent[k])
}

/// `w` agrees with every constraint of `c`.
pub open spec fn admits(c: Constraints, w: Seq<char>) -> bool {
    fixed_ok(w, c.fixed) && exclusions_ok(w, c.excluded) && absent_ok(w, c.absent)
}

/// The candidate set: the words of `dict` that `c` admits, in dictionary order.
pub open spec fn candidates(dict: Seq<Seq<char>>, c: Constraints) -> Seq<Seq<char>> {
    dict.filter(|w: Seq<char>| admits(c, w))
}

/// The constraint state of a session.
pub struct ConstraintState {
    /// Letters known absent from the solution.
    pub absent: String,
    /// Per position, the letters known present but not at that position.
    pub excluded: Vec<String>,
    /// Per position, the letter known to stand there.
    pub fixed: Vec<Option<char>>,
}

impl ConstraintState {
    pub open spec fn model(&self) -> Constraints {
        Constraints {
            absent: self.absent@,
            excluded: strings_view(self.excluded@),
            fixed: self.fixed@,
        }
    }

    /// Every position has one exclusion entry and one fixed entry.
    pub open spec fn wf(&self) -> bool {
        self.excluded@.len() == self.fixed@.len()
    }

    /// The empty state for words of `len` letters.
    pub fn new(len: usize) -> (r: Self)
        ensures
            r.wf(),
            r.fixed@.len() == len,
            r.model().absent.len() == 0,
            forall|i: int| 0 <= i < len ==> (#[trigger] r.model().excluded[i]).len() == 0,
            forall|i: int| 0 <= i < len ==> #[trigger] r.fixed@[i] is None,
    {
        let mut excluded: Vec<String> = Vec::new();
        let mut fixed: Vec<Option<char>> = Vec::new();
        let mut i: usize = 0;
        while i < len
            invariant
                i <= len,
                excluded@.len() == i,
                fixed@.len() == i,
                forall|k: int| 0 <= k < i ==> (#[trigger] excluded@[k])@.len() == 0,
                forall|k: int| 0 <= k < i ==> #[trigger] fixed@[k] is None,
            decreases len - i,
        {
            excluded.push(String::new());
            fixed.push(None);
            i = i + 1;
        }
        ConstraintState { absent: String::new(), excluded, fixed }
    }
}

/// Whether `c` occurs in `s`.
pub fn contains_char(s: &str, c: char) -> (r: bool)
    ensures
        r == s@.contains(c),
{
    let n: usize = s.unicode_len();
    let mut i: usize = 0;
    while i < n
        invariant
            n == s@.len(),
            i <= n,
            forall|k: int| 0 <= k < i ==> s@[k] != c,
        decreases n - i,
    {
        if s.get_char(i) == c {
            return true;
        }
        i = i + 1;
    }
    false
}

/// Whether `word` agrees with every constraint of `state`. The fixed letters
/// are checked first, then the exclusions, then the absent letters.
pub fn word_matches(word: &str, state: &ConstraintState) -> (r: bool)
    ensures
        r == admits(state.model(), word@),
{
    let n: usize = word.unicode_len();
    let ghost c = state.model();
    let mut i: usize = 0;
    while i < state.fixed.len()
        invariant
            n == word@.len(),
            c == state.model(),
            i <= state.fixed@.len(),
            forall|k: int|
                0 <= k < i && #[trigger] state.fixed@[k] is Some ==> k < n && word@[k]
                    == state.fixed@[k]->0,
        decreases state.fixed@.len() - i,
    {
        if let Some(f) = state.fixed[i] {
            if i >= n || word.get_char(i) != f {
                return false;
            }
        }
        i = i + 1;
    }
    i = 0;
    while i < state.excluded.len()
        invariant
            n == word@.len(),
            c == state.model(),
            fixed_ok(word@, c.fixed),
            i <= state.excluded@.len(),
            forall|p: int, j: int|
                0 <= p < i && 0 <= j < c.excluded[p].len() ==> !(p < n && word@[p]
                    == #[trigger] c.excluded[p][j]) && word@.contains(c.excluded[p][j]),
        decreases state.excluded@.len() - i,
    {
        let e: &str = state.excluded[i].as_str();
        let m: usize = e.unicode_len();
        let mut j: usize = 0;
        while j < m
            invariant
                n == word@.len(),
                c == state.model(),
                i < state.excluded@.len(),
                e@ == c.excluded[i as int],
                m == e@.len(),
                j <= m,
                forall|q: int|
                    0 <= q < j ==> !(i < n && word@[i as int] == #[trigger] e@[q])
                        && word@.contains(e@[q]),
            decreases m - j,
        {
            let x = e.get_char(j);
            if i < n && word.get_char(i) == x {
                return false;
            }
            if !contains_char(word, x) {
                return false;
            }
            j = j + 1;
        }
        i = i + 1;
    }
    let a: &str = state.absent.as_str();
    let m: usize = a.unicode_len();
    let mut k: usize = 0;
    while k < m
        invariant
            n == word@.len(),
            c == state.model(),
            a@ == c.absent,
            m == a@.len(),
            fixed_ok(word@, c.fixed),
            exclusions_ok(word@, c.excluded),
            k <= m,
            forall|q: int| 0 <= q < k ==> !word@.contains(#[trigger] a@[q]),
        decreases m - k,
    {
        if contains_char(word, a.get_char(k)) {
            return false;
        }
        k = k + 1;
    }
    true
}

/// The candidate set: the words of `dict` that agree with `state`, in the
/// order of `dict`.
pub fn filter_words(dict: &Vec<String>, state: &ConstraintState) -> (r: Vec<String>)
    ensures
        strings_view(r@) == candidates(strings_view(dict@), state.model()),
{
    let ghost c = state.model();
    let ghost pred = |w: Seq<char>| admits(c, w);
    let mut out: Vec<String> = Vec::new();
    let mut i: usize = 0;
    while i < dict.len()
        invariant
            i <= dict@.len(),
            c == state.model(),
            pred == (|w: Seq<char>| admits(c, w)),
            strings_view(out@) == strings_view(dict@).take(i as int).filter(pred),
        decreases dict@.len() - i,
    {
        let ghost before = strings_view(dict@).take(i as int);
        let ghost after = strings_view(dict@).take(i + 1);
        proof {
            assert(after.drop_last() =~= before);
            reveal(Seq::filter);
        }
        if word_matches(dict[i].as_str(), state) {
            out.push(dict[i].clone());
            proof {
                assert(strings_view(out@) =~= strings_view(dict@).take(i as int).filter(pred).push(dict@[i as int]@));
            }
        }
        i = i + 1;
    }
    proof {
        assert(strings_view(dict@).take(dict@.len() as int) =~= strings_view(dict@));
    }
    out
}

} // verus!
