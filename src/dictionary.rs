//! Building the dictionary from a newline-delimited word list.
use vstd::prelude::*;
use crate::filter::strings_view;

verus! {

/// The pieces of `s` between newlines; a text without newline is one piece.
pub open spec fn split_lines(s: Seq<char>) -> Seq<Seq<char>>
    decreases s.len(),
{
    if s.len() == 0 {
        seq![Seq::empty()]
    } else {
        let pieces = split_lines(s.drop_last());
        if s.last() == '\n' {
            pieces.push(Seq::empty())
        } else {
            pieces.update(pieces.len() - 1, pieces.last().push(s.last()))
        }
    }
}

/// The dictionary of a word list: its lines of exactly `len` letters, in order.
pub open spec fn words_of_length(text: Seq<char>, len: nat) -> Seq<Seq<char>> {
    split_lines(text).filter(|w: Seq<char>| w.len() == len)
}

/// The words of `text`, one per line, that have exactly `len` letters.
pub fn load_words(text: &str, len: usize) -> (r: Vec<String>)
    ensures
        strings_view(r@) == words_of_length(text@, len as nat),
{
    let ghost pred = |w: Seq<char>| w.len() == len as nat;
    let n: usize = text.unicode_len();
    let mut out: Vec<String> = Vec::new();
    let mut start: usize = 0;
    let mut i: usize = 0;
    proof {
        assert(text@.take(0) =~= Seq::<char>::empty());
        reveal_with_fuel(split_lines, 1);
    }
    while i < n
        invariant
            n == text@.len(),
            start <= i <= n,
            pred == (|w: Seq<char>| w.len() == len as nat),
            split_lines(text@.take(i as int)).len() >= 1,
            split_lines(text@.take(i as int)).last() == text@.subrange(start as int, i as int),
            strings_view(out@) == split_lines(text@.take(i as int)).drop_last().filter(pred),
        decreases n - i,
    {
        let ghost prev = split_lines(text@.take(i as int));
        let ghost next = split_lines(text@.take(i + 1));
        proof {
            assert(text@.take(i + 1).drop_last() =~= text@.take(i as int));
            assert(text@.take(i + 1).last() == text@[i as int]);
        }
        let c = text.get_char(i);
        if c == '\n' {
            let piece: &str = text.substring_char(start, i);
            proof {
                assert(next == prev.push(Seq::empty()));
                assert(next.drop_last() =~= prev);
                assert(prev =~= prev.drop_last().push(prev.last()));
                reveal(Seq::filter);
                assert(prev.drop_last().push(piece@).drop_last() =~= prev.drop_last());
            }
            if piece.unicode_len() == len {
                out.push(piece.to_owned());
                proof {
                    assert(strings_view(out@) =~= prev.drop_last().filter(pred).push(piece@));
                }
            } else {
                proof {
                    assert(strings_view(out@) =~= prev.drop_last().filter(pred));
                }
            }
            start = i + 1;
            proof {
                assert(text@.subrange(start as int, i + 1) =~= Seq::<char>::empty());
            }
        } else {
            proof {
                assert(next == prev.update(prev.len() - 1, prev.last().push(c)));
                assert(next.drop_last() =~= prev.drop_last());
                assert(text@.subrange(start as int, i + 1) =~= text@.subrange(
                    start as int,
                    i as int,
                ).push(c));
            }
        }
        i = i + 1;
    }
    let piece: &str = text.substring_char(start, n);
    let ghost all = split_lines(text@);
    proof {
        assert(text@.take(n as int) =~= text@);
        assert(all =~= all.drop_last().push(all.last()));
        reveal(Seq::filter);
        assert(all.drop_last().push(piece@).drop_last() =~= all.drop_last());
    }
    if piece.unicode_len() == len {
        out.push(piece.to_owned());
        proof {
            assert(strings_view(out@) =~= all.drop_last().filter(pred).push(piece@));
        }
    }
    out
}

} // verus!
