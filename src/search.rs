//! Picking the lines of a text that contain a pattern.
use crate::text::{contains_str, contains_text, split_once_char, strip_suffix_char};
use vstd::prelude::*;
use vstd::string::*;

verus! {

/// `i` is the position of the first '\n' in `s`.
pub open spec fn is_first_newline(s: Seq<char>, i: int) -> bool {
    &&& 0 <= i < s.len()
    &&& s[i] == '\n'
    &&& forall|j: int| 0 <= j < i ==> s[j] != '\n'
}

/// A line without the '\r' of a "\r\n" ending.
pub open spec fn strip_cr(line: Seq<char>) -> Seq<char> {
    if line.len() > 0 && line.last() == '\r' {
        line.drop_last()
    } else {
        line
    }
}

/// The lines of `s`: split at each "\n" or "\r\n", the terminators left out;
/// a final terminator does not start an empty line.
pub open spec fn split_lines(s: Seq<char>) -> Seq<Seq<char>>
    decreases s.len(),
{
    if exists|i: int| is_first_newline(s, i) {
        let i = choose|i: int| is_first_newline(s, i);
        seq![strip_cr(s.subrange(0, i))] + split_lines(s.subrange(i + 1, s.len() as int))
    } else if s.len() == 0 {
        seq![]
    } else {
        seq![s]
    }
}

/// Each line that contains `pattern`, in order, each followed by '\n'.
pub open spec fn matching_text(lines: Seq<Seq<char>>, pattern: Seq<char>) -> Seq<char>
    decreases lines.len(),
{
    if lines.len() == 0 {
        seq![]
    } else {
        let first = if contains_text(lines[0], pattern) {
            lines[0] + seq!['\n']
        } else {
            seq![]
        };
        first + matching_text(lines.drop_first(), pattern)
    }
}

proof fn lemma_matching_text_cons(line: Seq<char>, rest: Seq<Seq<char>>, pattern: Seq<char>)
    ensures
        matching_text(seq![line] + rest, pattern) == (if contains_text(line, pattern) {
            line + seq!['\n']
        } else {
            seq![]
        }) + matching_text(rest, pattern),
{
    let all = seq![line] + rest;
    assert(all[0] == line);
    assert(all.drop_first() =~= rest);
}

/// The lines of `content` that contain `pattern`, each followed by '\n'.
pub fn find_matches(content: &str, pattern: &str) -> (r: String)
    ensures
        r@ == matching_text(split_lines(content@), pattern@),
{
    let mut out = String::new();
    let mut rest: &str = content;
    proof {
        reveal_strlit("\n");
        assert(out@ + matching_text(split_lines(rest@), pattern@) =~= matching_text(
            split_lines(content@),
            pattern@,
        ));
    }
    loop
        invariant
            out@ + matching_text(split_lines(rest@), pattern@) == matching_text(
                split_lines(content@),
                pattern@,
            ),
        decreases rest@.len(),
    {
        match split_once_char(rest, '\n') {
            Some((head, tail)) => {
                let ghost s = rest@;
                let ghost i = head@.len() as int;
                proof {
                    assert(s[i] == '\n');
                    assert forall|j: int| 0 <= j < i implies s[j] != '\n' by {
                        assert(s[j] == head@[j]);
                        if s[j] == '\n' {
                            assert(head@.contains('\n'));
                        }
                    }
                    assert(is_first_newline(s, i));
                    let ci = choose|ci: int| is_first_newline(s, ci);
                    assert(ci == i) by {
                        if ci < i {
                            assert(s[ci] != '\n');
                        } else if ci > i {
                            assert(s[i] != '\n');
                        }
                    }
                    assert(s.subrange(0, i) =~= head@);
                    assert(s.subrange(i + 1, s.len() as int) =~= tail@);
                    assert(split_lines(s) == seq![strip_cr(head@)] + split_lines(tail@));
                    lemma_matching_text_cons(strip_cr(head@), split_lines(tail@), pattern@);
                }
                let ghost before = out@;
                let line = match strip_suffix_char(head, '\r') {
                    Some(l) => l,
                    None => head,
                };
                proof {
                    assert(line@ == strip_cr(head@));
                }
                if contains_str(line, pattern) {
                    out.append(line);
                    out.append("\n");
                }
                proof {
                    reveal_strlit("\n");
                    let piece = if contains_text(line@, pattern@) {
                        line@ + seq!['\n']
                    } else {
                        seq![]
                    };
                    assert(out@ =~= before + piece);
                    assert(before + (piece + matching_text(split_lines(tail@), pattern@)) =~= (
                    before + piece) + matching_text(split_lines(tail@), pattern@));
                }
                rest = tail;
            },
            None => {
                proof {
                    let s = rest@;
                    assert forall|i: int| !is_first_newline(s, i) by {
                        if is_first_newline(s, i) {
                            assert(s.contains('\n'));
                        }
                    }
                    if s.len() > 0 {
                        assert(split_lines(s) == seq![s]);
                        lemma_matching_text_cons(s, seq![], pattern@);
                        assert(seq![s] + Seq::<Seq<char>>::empty() =~= seq![s]);
                    }
                }
                let ghost before = out@;
                if !rest.is_empty() && contains_str(rest, pattern) {
                    out.append(rest);
                    out.append("\n");
                }
                proof {
                    reveal_strlit("\n");
                    let s = rest@;
                    if s.len() == 0 {
                        assert(split_lines(s) == Seq::<Seq<char>>::empty());
                        assert(before + Seq::<char>::empty() =~= before);
                        assert(out@ =~= before);
                    } else {
                        let piece = if contains_text(s, pattern@) {
                            s + seq!['\n']
                        } else {
                            seq![]
                        };
                        assert(matching_text(Seq::<Seq<char>>::empty(), pattern@) == Seq::<char>::empty());
                        assert(piece + Seq::<char>::empty() =~= piece);
                        assert(out@ =~= before + piece);
                    }
                }
                return out;
            },
        }
    }
}

} // verus!
