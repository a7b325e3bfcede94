//! Escape sequences in string literals.
use vstd::prelude::*;
use vstd::string::StrSliceExecFns;

verus! {

/// The character that the escape sequence of a backslash followed by `c` stands for: `\n` a
/// line feed, `\r` a carriage return, `\\` a backslash; other characters start no escape.
pub open spec fn escaped_char(c: char) -> Option<char> {
    if c == 'n' {
        Some('\n')
    } else if c == 'r' {
        Some('\r')
    } else if c == '\\' {
        Some('\\')
    } else {
        None
    }
}

/// What unescaping makes of `value`, read once from left to right: each backslash followed by
/// `n`, `r` or another backslash becomes the character that sequence stands for; every other
/// character stays as it is.
pub open spec fn spec_unescaped(value: Seq<char>) -> Seq<char>
    decreases value.len(),
{
    if value.len() == 0 {
        seq![]
    } else if value.len() >= 2 && value[0] == '\\' && escaped_char(value[1]) is Some {
        seq![escaped_char(value[1]).unwrap()] + spec_unescaped(value.subrange(2, value.len() as int))
    } else {
        seq![value[0]] + spec_unescaped(value.drop_first())
    }
}

/// Unescapes `\n`, `\r` and `\\` in `value`, reading it once from left to right.
pub fn unescape(value: &str) -> (r: String)
    ensures
        r@ == spec_unescaped(value@),
{
    let ghost v = value@;
    let n = value.unicode_len();
    let mut out = String::new();
    let mut i: usize = 0;
    proof {
        assert(v.subrange(0, v.len() as int) =~= v);
        reveal_strlit("\n");
        reveal_strlit("\r");
        reveal_strlit("\\");
    }
    while i < n
        invariant
            value@ == v,
            n == v.len(),
            i <= n,
            spec_unescaped(v) == out@ + spec_unescaped(v.subrange(i as int, n as int)),
            "\n"@ == seq!['\n'],
            "\r"@ == seq!['\r'],
            "\\"@ == seq!['\\'],
        decreases n - i,
    {
        let ghost rest = v.subrange(i as int, n as int);
        let ghost before = out@;
        let c = value.get_char(i);
        if c == '\\' && i + 1 < n {
            let d = value.get_char(i + 1);
            let escape = if d == 'n' {
                Some("\n")
            } else if d == 'r' {
                Some("\r")
            } else if d == '\\' {
                Some("\\")
            } else {
                None
            };
            if let Some(e) = escape {
                proof {
                    assert(rest[0] == c && rest[1] == d);
                    assert(rest.subrange(2, rest.len() as int) =~= v.subrange(i + 2, n as int));
                    assert(e@ == seq![escaped_char(d).unwrap()]);
                }
                out.append(e);
                proof {
                    assert(before + e@ + spec_unescaped(v.subrange(i + 2, n as int))
                        =~= before + (e@ + spec_unescaped(v.subrange(i + 2, n as int))));
                }
                i = i + 2;
                continue;
            }
        }
        let piece = value.substring_char(i, i + 1);
        proof {
            assert(rest[0] == c);
            assert(rest.drop_first() =~= v.subrange(i + 1, n as int));
            if c == '\\' && i + 1 < n {
                assert(rest[1] == v[i + 1]);
            }
            assert(piece@ =~= seq![c]);
        }
        out.append(piece);
        proof {
            assert(before + piece@ + spec_unescaped(v.subrange(i + 1, n as int))
                =~= before + (piece@ + spec_unescaped(v.subrange(i + 1, n as int))));
        }
        i = i + 1;
    }
    proof {
        assert(v.subrange(n as int, n as int) =~= Seq::<char>::empty());
        assert(out@ + Seq::<char>::empty() =~= out@);
    }
    out
}

} // verus!
