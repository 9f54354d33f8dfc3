//! Updating the constraint state from lines that the user typed.
use vstd::prelude::*;
use crate::filter::strings_view;

verus! {

/// The letters of `s` without repeats, in the order of their first occurrence.
pub open spec fn dedup(s: Seq<char>) -> Seq<char>
    decreases s.len(),
{
    if s.len() == 0 {
        s
    } else if dedup(s.drop_last()).contains(s.last()) {
        dedup(s.drop_last())
    } else {
        dedup(s.drop_last()).push(s.last())
    }
}

/// The new set of absent letters: `current` when the input is empty, else
/// the distinct letters of the input in the order of their first occurrence.
pub open spec fn absent_after(current: Seq<char>, input: Seq<char>) -> Seq<char> {
    if input.len() == 0 {
        current
    } else {
        dedup(input)
    }
}

/// The distinct letters of `s` are those of `s`, each once.
pub proof fn lemma_dedup(s: Seq<char>)
    ensures
        dedup(s).no_duplicates(),
        forall|c: char| dedup(s).contains(c) <==> s.contains(c),
    decreases s.len(),
{
    if s.len() > 0 {
        lemma_dedup(s.drop_last());
        assert forall|c: char| s.contains(c) <==> s.drop_last().contains(c) || c == s.last() by {
            if s.contains(c) {
                let k = choose|k: int| 0 <= k < s.len() && s[k] == c;
                if k < s.len() - 1 {
                    assert(s.drop_last()[k] == c);
                }
            }
            if s.drop_last().contains(c) {
                let k = choose|k: int| 0 <= k < s.len() - 1 && s.drop_last()[k] == c;
                assert(s[k] == c);
            }
            if c == s.last() {
                assert(s[s.len() - 1] == c);
            }
        }
        let d = dedup(s.drop_last());
        if !d.contains(s.last()) {
            assert forall|c: char| d.push(s.last()).contains(c) <==> d.contains(c) || c == s.last() by {
                if d.push(s.last()).contains(c) {
                    let k = choose|k: int| 0 <= k < d.len() + 1 && d.push(s.last())[k] == c;
                    if k < d.len() {
                        assert(d[k] == c);
                    }
                }
                if d.contains(c) {
                    let k = choose|k: int| 0 <= k < d.len() && d[k] == c;
                    assert(d.push(s.last())[k] == c);
                }
                if c == s.last() {
                    assert(d.push(s.last())[d.len() as int] == c);
                }
            }
        }
    }
}

/// The absent letters after the user typed `input`: unchanged when the input
/// is empty, otherwise replaced by the distinct letters of the input.
pub fn update_absent(current: String, input: &str) -> (r: String)
    ensures
        r@ == absent_after(current@, input@),
        input@.len() > 0 ==> r@.no_duplicates(),
        input@.len() > 0 ==> forall|c: char| r@.contains(c) <==> input@.contains(c),
{
    proof {
        lemma_dedup(input@);
    }
    let n: usize = input.unicode_len();
    if n == 0 {
        return current;
    }
    let mut out: String = String::new();
    let mut i: usize = 0;
    while i < n
        invariant
            n == input@.len(),
            i <= n,
            out@ == dedup(input@.take(i as int)),
        decreases n - i,
    {
        proof {
            assert(input@.take(i + 1).drop_last() =~= input@.take(i as int));
            lemma_dedup(input@.take(i as int));
        }
        let c = input.get_char(i);
        if !crate::filter::contains_char(out.as_str(), c) {
            let one: &str = input.substring_char(i, i + 1);
            out = out.concat(one);
            proof {
                assert(out@ =~= dedup(input@.take(i as int)).push(c));
            }
        }
        i = i + 1;
    }
    proof {
        assert(input@.take(n as int) =~= input@);
    }
    out
}

/// Why a line of the form `NUMBER VALUE` was refused.
#[derive(Clone, Copy, Debug, PartialEq, Eq)]
pub enum PairError {
    /// The line does not hold exactly one space.
    Shape,
    /// The part before the space is no decimal number that fits in `usize`.
    BadNumber,
    /// The number is outside `1..=len`.
    OutOfRange,
    /// The value after the space is empty where a letter is needed.
    EmptyValue,
}

/// What one line did to a positional constraint.
#[derive(Clone, Copy, Debug, PartialEq, Eq)]
pub enum LineOutcome {
    /// The line was empty: the user has finished with this constraint.
    Finished,
    /// The line was applied.
    Applied,
    /// The line was applied, but its value was not a single letter: its first
    /// letter was taken.
    AppliedFirstLetter,
    /// The line was refused and nothing changed.
    Rejected(PairError),
}

/// Whether `c` is an ASCII decimal digit.
pub open spec fn is_digit(c: char) -> bool {
    '0' <= c && c <= '9'
}

/// The value of a string of decimal digits.
pub open spec fn digits_value(s: Seq<char>) -> nat
    decreases s.len(),
{
    if s.len() == 0 {
        0
    } else {
        digits_value(s.drop_last()) * 10 + (s.last() as nat - '0' as nat) as nat
    }
}

/// The digits of a number, without its optional leading `'+'`.
pub open spec fn unsigned_digits(s: Seq<char>) -> Seq<char> {
    if s.len() > 0 && s[0] == '+' {
        s.drop_first()
    } else {
        s
    }
}

/// The number that `s` writes in decimal, with an optional leading `'+'`,
/// if it fits in `usize`.
pub open spec fn parsed_number(s: Seq<char>) -> Option<nat> {
    let d = unsigned_digits(s);
    if d.len() > 0 && (forall|k: int| 0 <= k < d.len() ==> is_digit(#[trigger] d[k]))
        && digits_value(d) <= usize::MAX {
        Some(digits_value(d))
    } else {
        None
    }
}

/// A longer run of digits is worth at least as much.
proof fn lemma_digits_grow(s: Seq<char>, i: int, j: int)
    requires
        0 <= i <= j <= s.len(),
        forall|k: int| 0 <= k < s.len() ==> is_digit(#[trigger] s[k]),
    ensures
        digits_value(s.take(i)) <= digits_value(s.take(j)),
    decreases j - i,
{
    if i < j {
        lemma_digits_grow(s, i, j - 1);
        assert(s.take(j).drop_last() =~= s.take(j - 1));
    }
}

/// Reads a decimal number with an optional leading `'+'`, as `usize`'s
/// `from_str` does.
pub fn parse_number(s: &str) -> (r: Option<usize>)
    ensures
        r is Some ==> parsed_number(s@) == Some(r->0 as nat),
        r is None ==> parsed_number(s@) is None,
{
    let n: usize = s.unicode_len();
    let start: usize = if n > 0 && s.get_char(0) == '+' { 1 } else { 0 };
    let ghost d = unsigned_digits(s@);
    proof {
        assert(d =~= s@.subrange(start as int, n as int));
    }
    if start == n {
        return None;
    }
    let mut v: usize = 0;
    let mut i: usize = start;
    while i < n
        invariant
            n == s@.len(),
            start <= i <= n,
            d == s@.subrange(start as int, n as int),
            d == unsigned_digits(s@),
            forall|k: int| 0 <= k < i - start ==> is_digit(#[trigger] d[k]),
            v as nat == digits_value(d.take(i - start)),
        decreases n - i,
    {
        let c = s.get_char(i);
        proof {
            assert(d.take(i - start + 1).drop_last() =~= d.take(i - start));
            assert(d[i - start] == c);
        }
        if c < '0' || c > '9' {
            proof {
                assert(!is_digit(d[i - start]));
                assert(parsed_number(s@) is None);
            }
            return None;
        }
        let digit: usize = ((c as u32) - ('0' as u32)) as usize;
        if v > (usize::MAX - digit) / 10 {
            proof {
                assert(d.take(i - start + 1).last() == c);
                assert(digits_value(d.take(i - start + 1)) == v * 10 + digit);
                assert(digits_value(d.take(i - start + 1)) > usize::MAX) by (nonlinear_arith)
                    requires
                        v > (usize::MAX - digit) / 10,
                        digits_value(d.take(i - start + 1)) == v * 10 + digit,
                ;
                let all_digits = forall|k: int| 0 <= k < d.len() ==> is_digit(#[trigger] d[k]);
                if all_digits {
                    lemma_digits_grow(d, i - start + 1, d.len() as int);
                    assert(d.take(d.len() as int) =~= d);
                }
                assert(parsed_number(s@) is None);
            }
            return None;
        }
        proof {
            assert(v * 10 + digit <= usize::MAX) by (nonlinear_arith)
                requires
                    v <= (usize::MAX - digit) / 10,
                    digit <= 9,
            ;
        }
        v = v * 10 + digit;
        i = i + 1;
    }
    proof {
        assert(d.take(d.len() as int) =~= d);
    }
    Some(v)
}

/// `p` is the position of the only space in `s`.
pub open spec fn sole_space(s: Seq<char>, p: int) -> bool {
    &&& 0 <= p < s.len()
    &&& s[p] == ' '
    &&& forall|q: int| 0 <= q < s.len() && q != p ==> #[trigger] s[q] != ' '
}

/// The two fields of a line that holds exactly one space.
pub open spec fn pair_fields(s: Seq<char>) -> Option<(Seq<char>, Seq<char>)> {
    if exists|p: int| sole_space(s, p) {
        let p = choose|p: int| sole_space(s, p);
        Some((s.take(p), s.skip(p + 1)))
    } else {
        None
    }
}

/// A line `NUMBER VALUE` read against `len` positions: the 1-based position
/// and the value, or why the line is refused.
pub open spec fn parsed_pair(s: Seq<char>, len: nat) -> Result<(nat, Seq<char>), PairError> {
    match pair_fields(s) {
        None => Err(PairError::Shape),
        Some((a, b)) => match parsed_number(a) {
            None => Err(PairError::BadNumber),
            Some(n) => if 1 <= n <= len {
                Ok((n, b))
            } else {
                Err(PairError::OutOfRange)
            },
        },
    }
}

/// Reads a line `NUMBER VALUE`: exactly one space, a number in `1..=len`
/// before it, the value after it.
pub fn parse_pair<'a>(line: &'a str, len: usize) -> (r: Result<(usize, &'a str), PairError>)
    ensures
        match r {
            Ok((n, v)) => parsed_pair(line@, len as nat) == Ok::<(nat, Seq<char>), PairError>(
                (n as nat, v@),
            ),
            Err(e) => parsed_pair(line@, len as nat) == Err::<(nat, Seq<char>), PairError>(e),
        },
{
    let n: usize = line.unicode_len();
    let mut first: usize = n;
    let mut count: usize = 0;
    let mut i: usize = 0;
    while i < n
        invariant
            n == line@.len(),
            i <= n,
            count <= 2,
            count == 0 ==> first == n && forall|q: int| 0 <= q < i ==> #[trigger] line@[q] != ' ',
            count >= 1 ==> first < i && line@[first as int] == ' ',
            count == 1 ==> forall|q: int| 0 <= q < i && q != first ==> #[trigger] line@[q] != ' ',
            count == 2 ==> !(exists|p: int| sole_space(line@, p)),
        decreases n - i,
    {
        if line.get_char(i) == ' ' {
            if count == 0 {
                first = i;
                count = 1;
            } else if count == 1 {
                proof {
                    assert forall|p: int| !sole_space(line@, p) by {
                        if sole_space(line@, p) {
                            if p == first as int {
                                assert(line@[i as int] == ' ');
                            } else {
                                assert(line@[first as int] == ' ');
                            }
                        }
                    }
                }
                count = 2;
            }
        }
        i = i + 1;
    }
    if count != 1 {
        return Err(PairError::Shape);
    }
    proof {
        assert(sole_space(line@, first as int));
        let p = choose|p: int| sole_space(line@, p);
        assert(p == first as int);
    }
    let a: &str = line.substring_char(0, first);
    let b: &str = line.substring_char(first + 1, n);
    proof {
        assert(a@ =~= line@.take(first as int));
        assert(b@ =~= line@.skip(first + 1));
    }
    match parse_number(a) {
        None => Err(PairError::BadNumber),
        Some(k) => {
            if 1 <= k && k <= len {
                Ok((k, b))
            } else {
                Err(PairError::OutOfRange)
            }
        },
    }
}

/// Applies one line to the per-position exclusions. An empty line finishes;
/// a line `NUMBER LETTERS` replaces the exclusions at that position with the
/// given letters; any other line is refused and changes nothing.
pub fn update_positional_exclusions(current: &mut Vec<String>, line: &str) -> (r: LineOutcome)
    ensures
        line@.len() == 0 ==> r == LineOutcome::Finished && final(current)@ == old(current)@,
        line@.len() > 0 ==> match parsed_pair(line@, old(current)@.len()) {
            Err(e) => r == LineOutcome::Rejected(e) && final(current)@ == old(current)@,
            Ok((n, v)) => r == LineOutcome::Applied && strings_view(final(current)@) == strings_view(
                old(current)@,
            ).update(n - 1, v),
        },
{
    if line.unicode_len() == 0 {
        return LineOutcome::Finished;
    }
    let len: usize = current.len();
    match parse_pair(line, len) {
        Err(e) => LineOutcome::Rejected(e),
        Ok((k, v)) => {
            let ghost before = strings_view(current@);
            current[k - 1] = v.to_owned();
            proof {
                assert(strings_view(current@) =~= before.update(k - 1, v@));
            }
            LineOutcome::Applied
        },
    }
}

/// Applies one line to the fixed letters. An empty line finishes; a line
/// `NUMBER LETTER` fixes that letter at that position; where the value has
/// more than one letter its first letter is fixed; any other line, and one
/// with an empty value, is refused and changes nothing.
pub fn update_positional_fixed(current: &mut Vec<Option<char>>, line: &str) -> (r: LineOutcome)
    ensures
        line@.len() == 0 ==> r == LineOutcome::Finished && final(current)@ == old(current)@,
        line@.len() > 0 ==> match parsed_pair(line@, old(current)@.len()) {
            Err(e) => r == LineOutcome::Rejected(e) && final(current)@ == old(current)@,
            Ok((n, v)) => if v.len() == 0 {
                r == LineOutcome::Rejected(PairError::EmptyValue) && final(current)@ == old(
                    current,
                )@
            } else {
                &&& final(current)@ == old(current)@.update(n - 1, Some(v[0]))
                &&& r == if v.len() == 1 {
                    LineOutcome::Applied
                } else {
                    LineOutcome::AppliedFirstLetter
                }
            },
        },
{
    if line.unicode_len() == 0 {
        return LineOutcome::Finished;
    }
    let len: usize = current.len();
    match parse_pair(line, len) {
        Err(e) => LineOutcome::Rejected(e),
        Ok((k, v)) => {
            let m: usize = v.unicode_len();
            if m == 0 {
                return LineOutcome::Rejected(PairError::EmptyValue);
            }
            current[k - 1] = Some(v.get_char(0));
            if m == 1 {
                LineOutcome::Applied
            } else {
                LineOutcome::AppliedFirstLetter
            }
        },
    }
}

} // verus!
