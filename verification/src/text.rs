use vstd::prelude::*;

use vstd::string::StrSliceExecFns;
use vstd::string::StringExecFns;

use crate::state::ModConfig;
use crate::state::ModConfigView;
use crate::state::ModSpecification;

verus! {

// ---------------------------------------------------------------------------
// Decimal rendering.
// ---------------------------------------------------------------------------

pub open spec fn digit_char(n: nat) -> char
    recommends
        n < 10,
{
    if n == 0 {
        '0'
    } else if n == 1 {
        '1'
    } else if n == 2 {
        '2'
    } else if n == 3 {
        '3'
    } else if n == 4 {
        '4'
    } else if n == 5 {
        '5'
    } else if n == 6 {
        '6'
    } else if n == 7 {
        '7'
    } else if n == 8 {
        '8'
    } else {
        '9'
    }
}

/// The decimal digits of `n`, most significant first.
pub open spec fn dec_chars(n: nat) -> Seq<char>
    decreases n,
{
    if n < 10 {
        seq![digit_char(n)]
    } else {
        dec_chars(n / 10).push(digit_char(n % 10))
    }
}

fn digit_str(n: u64) -> (r: &'static str)
    requires
        n < 10,
    ensures
        r@ == seq![digit_char(n as nat)],
{
    let r: &'static str = match n {
        0 => "0",
        1 => "1",
        2 => "2",
        3 => "3",
        4 => "4",
        5 => "5",
        6 => "6",
        7 => "7",
        8 => "8",
        _ => "9",
    };
    proof {
        reveal_strlit("0");
        reveal_strlit("1");
        reveal_strlit("2");
        reveal_strlit("3");
        reveal_strlit("4");
        reveal_strlit("5");
        reveal_strlit("6");
        reveal_strlit("7");
        reveal_strlit("8");
        reveal_strlit("9");
        assert(r@ =~= seq![digit_char(n as nat)]);
    }
    r
}

/// `n` written in decimal.
pub fn u64_to_string(n: u64) -> (r: String)
    ensures
        r@ == dec_chars(n as nat),
    decreases n,
{
    if n < 10 {
        digit_str(n).to_owned()
    } else {
        let front = u64_to_string(n / 10);
        let r = front.concat(digit_str(n % 10));
        proof {
            assert(r@ =~= dec_chars(n as nat));
        }
        r
    }
}

// ---------------------------------------------------------------------------
// The "add mods" text box: one locator per line; blank lines and surrounding
// whitespace are ignored.
// ---------------------------------------------------------------------------

/// Relies on char::is_whitespace of std: whether a character is whitespace
/// depends on the character alone.
pub uninterp spec fn is_space(c: char) -> bool;

/// Relies on char::is_whitespace of std, naming its result `is_space`.
#[verifier::external_body]
fn char_is_space(c: char) -> (r: bool)
    ensures
        r == is_space(c),
{
    c.is_whitespace()
}

/// `s` with leading and trailing whitespace removed: the characters from the
/// first non-space to the last.
pub open spec fn trimmed(s: Seq<char>) -> Seq<char>
    decreases s.len(),
{
    if s.len() == 0 {
        s
    } else if is_space(s[0]) {
        trimmed(s.subrange(1, s.len() as int))
    } else if is_space(s[s.len() - 1]) {
        trimmed(s.subrange(0, s.len() - 1))
    } else {
        s
    }
}

/// The lines of `s`, split on the newline character.
pub open spec fn split_lines(s: Seq<char>) -> Seq<Seq<char>>
    decreases s.len(),
{
    if s.len() == 0 {
        Seq::empty()
    } else {
        let k = first_newline(s);
        if k >= s.len() {
            seq![s]
        } else {
            seq![s.subrange(0, k as int)] + split_lines(s.subrange(k as int + 1, s.len() as int))
        }
    }
}

/// Position of the first newline in `s`; the length of `s` when it has
/// none.
pub open spec fn first_newline(s: Seq<char>) -> nat
    decreases s.len(),
{
    if s.len() == 0 {
        0
    } else if s[0] == '\n' {
        0
    } else {
        1 + first_newline(s.subrange(1, s.len() as int))
    }
}

/// The non-blank lines among `lines`, in order.
pub open spec fn nonblank(lines: Seq<Seq<char>>) -> Seq<Seq<char>>
    decreases lines.len(),
{
    if lines.len() == 0 {
        Seq::empty()
    } else {
        let prefix = nonblank(lines.drop_last());
        if lines.last().len() != 0 {
            prefix.push(lines.last())
        } else {
            prefix
        }
    }
}

/// The locators entered in the text box: each line trimmed, blank lines
/// dropped, in order.
pub open spec fn parsed_specs(s: Seq<char>) -> Seq<Seq<char>> {
    nonblank(split_lines(s).map_values(|l: Seq<char>| trimmed(l)))
}

/// Trims the whitespace off both ends of the line.
fn trim_line(s: &str) -> (r: String)
    ensures
        r@ == trimmed(s@),
{
    let n = s.unicode_len();
    let mut lo: usize = 0;
    let mut hi: usize = n;
    proof {
        assert(s@.subrange(0, n as int) =~= s@);
    }
    while lo < hi && char_is_space(s.get_char(lo))
        invariant
            lo <= hi <= n,
            n == s@.len(),
            trimmed(s@) == trimmed(s@.subrange(lo as int, hi as int)),
        decreases hi - lo,
    {
        proof {
            let seg = s@.subrange(lo as int, hi as int);
            assert(is_space(seg[0]));
            assert(seg.subrange(1, seg.len() as int) =~= s@.subrange(lo as int + 1, hi as int));
        }
        lo += 1;
    }
    while lo < hi && char_is_space(s.get_char(hi - 1))
        invariant
            lo <= hi <= n,
            n == s@.len(),
            trimmed(s@) == trimmed(s@.subrange(lo as int, hi as int)),
            lo >= hi || !is_space(s@[lo as int]),
        decreases hi - lo,
    {
        proof {
            let seg = s@.subrange(lo as int, hi as int);
            assert(!is_space(seg[0]));
            assert(is_space(seg[seg.len() - 1]));
            assert(seg.subrange(0, seg.len() - 1) =~= s@.subrange(lo as int, hi as int - 1));
        }
        hi -= 1;
    }
    let piece = s.substring_char(lo, hi);
    let r = piece.to_owned();
    proof {
        let seg = s@.subrange(lo as int, hi as int);
        if seg.len() > 0 {
            assert(seg[0] == s@[lo as int]);
            assert(!is_space(seg[0]));
            assert(!is_space(seg[seg.len() - 1]));
        }
        assert(trimmed(seg) == seg);
    }
    r
}

/// Splits the text into lines, trims each, drops the blank ones, and makes a
/// specification of every line that is left, in order.
pub fn parse_mods(text: &str) -> (r: Vec<ModSpecification>)
    ensures
        r@.map_values(|m: ModSpecification| m@) == parsed_specs(text@),
{
    let mut out: Vec<ModSpecification> = Vec::new();
    let n = text.unicode_len();
    let mut start: usize = 0;
    let ghost whole = text@;
    proof {
        assert(out@.map_values(|m: ModSpecification| m@) =~= Seq::<Seq<char>>::empty());
        assert(whole.subrange(0, n as int) =~= whole);
    }
    let mut i: usize = 0;
    while i < n
        invariant
            n == whole.len(),
            whole == text@,
            start <= i <= n,
            forall|j: int| start <= j < i ==> whole[j] != '\n',
            parsed_specs(whole) == out@.map_values(|m: ModSpecification| m@) + parsed_specs(
                whole.subrange(start as int, n as int),
            ),
        decreases n - i,
    {
        let c = text.get_char(i);
        if c == '\n' {
            let line = text.substring_char(start, i);
            let t = trim_line(line);
            let ghost out0 = out@;
            let ghost linev = trimmed(whole.subrange(start as int, i as int));
            if t.unicode_len() != 0 {
                out.push(ModSpecification::new(t));
            }
            proof {
                lemma_parsed_split(whole, start as int, i as int);
                if linev.len() != 0 {
                    assert(out@.map_values(|m: ModSpecification| m@) =~= out0.map_values(
                        |m: ModSpecification| m@,
                    ).push(linev));
                    assert(out0.map_values(|m: ModSpecification| m@).push(linev) + parsed_specs(
                        whole.subrange(i as int + 1, n as int),
                    ) =~= out0.map_values(|m: ModSpecification| m@) + (seq![linev] + parsed_specs(
                        whole.subrange(i as int + 1, n as int),
                    )));
                }
            }
            start = i + 1;
        }
        i += 1;
    }
    let line = text.substring_char(start, n);
    let t = trim_line(line);
    let ghost out0 = out@;
    let ghost linev = trimmed(whole.subrange(start as int, n as int));
    if t.unicode_len() != 0 {
        out.push(ModSpecification::new(t));
    }
    proof {
        lemma_parsed_tail(whole, start as int);
        if linev.len() != 0 {
            assert(out@.map_values(|m: ModSpecification| m@) =~= out0.map_values(
                |m: ModSpecification| m@,
            ).push(linev));
            assert(out0.map_values(|m: ModSpecification| m@).push(linev) =~= out0.map_values(
                |m: ModSpecification| m@,
            ) + seq![linev]);
        } else {
            assert(out@.map_values(|m: ModSpecification| m@) + Seq::<Seq<char>>::empty()
                =~= out@.map_values(|m: ModSpecification| m@));
        }
    }
    out
}

/// Locating the first newline from its position.
proof fn lemma_first_newline_at(s: Seq<char>, i: int)
    requires
        0 <= i < s.len(),
        s[i] == '\n',
        forall|j: int| 0 <= j < i ==> s[j] != '\n',
    ensures
        first_newline(s) == i,
    decreases i,
{
    if i > 0 {
        let rest = s.subrange(1, s.len() as int);
        assert forall|j: int| 0 <= j < i - 1 implies rest[j] != '\n' by {
            assert(rest[j] == s[j + 1]);
        }
        assert(rest[i - 1] == s[i]);
        lemma_first_newline_at(rest, i - 1);
    }
}

/// No newline anywhere puts the first-newline position at the end.
proof fn lemma_no_newline(s: Seq<char>)
    requires
        forall|j: int| 0 <= j < s.len() ==> s[j] != '\n',
    ensures
        first_newline(s) == s.len(),
    decreases s.len(),
{
    if s.len() > 0 {
        let rest = s.subrange(1, s.len() as int);
        assert forall|j: int| 0 <= j < rest.len() implies rest[j] != '\n' by {
            assert(rest[j] == s[j + 1]);
        }
        lemma_no_newline(rest);
    }
}

/// Taking the non-blank lines of a sequence with one line in front.
proof fn lemma_nonblank_cons(x: Seq<char>, tail: Seq<Seq<char>>)
    ensures
        nonblank(seq![x] + tail) == if x.len() != 0 {
            seq![x] + nonblank(tail)
        } else {
            nonblank(tail)
        },
    decreases tail.len(),
{
    let whole = seq![x] + tail;
    if tail.len() == 0 {
        assert(whole.drop_last() =~= Seq::<Seq<char>>::empty());
        assert(nonblank(Seq::<Seq<char>>::empty()) =~= Seq::<Seq<char>>::empty());
        assert(whole.last() == x);
        assert(nonblank(tail) =~= Seq::<Seq<char>>::empty());
        if x.len() != 0 {
            assert(nonblank(whole) =~= Seq::<Seq<char>>::empty().push(x));
            assert(nonblank(whole) =~= seq![x] + nonblank(tail));
        } else {
            assert(nonblank(whole) =~= nonblank(tail));
        }
    } else {
        let shorter = seq![x] + tail.drop_last();
        assert(whole.drop_last() =~= shorter);
        assert(whole.last() == tail.last());
        lemma_nonblank_cons(x, tail.drop_last());
        assert(tail.drop_last().push(tail.last()) =~= tail);
        if x.len() != 0 {
            if tail.last().len() != 0 {
                assert(nonblank(whole) == nonblank(shorter).push(tail.last()));
                assert((seq![x] + nonblank(tail.drop_last())).push(tail.last()) =~= seq![x]
                    + nonblank(tail.drop_last()).push(tail.last()));
                assert(nonblank(tail) == nonblank(tail.drop_last()).push(tail.last()));
            } else {
                assert(nonblank(whole) == nonblank(shorter));
                assert(nonblank(tail) == nonblank(tail.drop_last()));
            }
            assert(nonblank(whole) =~= seq![x] + nonblank(tail));
        } else {
            if tail.last().len() != 0 {
                assert(nonblank(whole) == nonblank(shorter).push(tail.last()));
                assert(nonblank(tail) == nonblank(tail.drop_last()).push(tail.last()));
            } else {
                assert(nonblank(whole) == nonblank(shorter));
                assert(nonblank(tail) == nonblank(tail.drop_last()));
            }
            assert(nonblank(whole) =~= nonblank(tail));
        }
    }
}

/// The parsed suffix at a line start decomposes into the line's own
/// contribution followed by the parsed suffix after the newline.
proof fn lemma_parsed_split(s: Seq<char>, start: int, nl: int)
    requires
        0 <= start <= nl < s.len(),
        s[nl] == '\n',
        forall|j: int| start <= j < nl ==> s[j] != '\n',
    ensures
        ({
            let line = trimmed(s.subrange(start, nl));
            let tail = parsed_specs(s.subrange(nl + 1, s.len() as int));
            parsed_specs(s.subrange(start, s.len() as int)) == if line.len() == 0 {
                tail
            } else {
                seq![line] + tail
            }
        }),
{
    let suffix = s.subrange(start, s.len() as int);
    let rest = s.subrange(nl + 1, s.len() as int);
    assert(suffix[nl - start] == '\n');
    assert forall|j: int| 0 <= j < nl - start implies suffix[j] != '\n' by {
        assert(suffix[j] == s[start + j]);
    }
    lemma_first_newline_at(suffix, nl - start);
    assert(suffix.subrange(0, nl - start) =~= s.subrange(start, nl));
    assert(suffix.subrange(nl - start + 1, suffix.len() as int) =~= rest);
    let line0 = s.subrange(start, nl);
    assert(split_lines(suffix) == seq![line0] + split_lines(rest));
    let mapped = split_lines(suffix).map_values(|l: Seq<char>| trimmed(l));
    assert(mapped =~= seq![trimmed(line0)] + split_lines(rest).map_values(
        |l: Seq<char>| trimmed(l),
    ));
    lemma_nonblank_cons(trimmed(line0), split_lines(rest).map_values(|l: Seq<char>| trimmed(l)));
}

/// A final segment without newlines parses to its one trimmed line, or to
/// nothing when that line is blank.
proof fn lemma_parsed_tail(s: Seq<char>, start: int)
    requires
        0 <= start <= s.len(),
        forall|j: int| start <= j < s.len() ==> s[j] != '\n',
    ensures
        ({
            let line = trimmed(s.subrange(start, s.len() as int));
            parsed_specs(s.subrange(start, s.len() as int)) == if line.len() == 0 {
                Seq::<Seq<char>>::empty()
            } else {
                seq![line]
            }
        }),
{
    let suffix = s.subrange(start, s.len() as int);
    if suffix.len() == 0 {
        assert(split_lines(suffix) =~= Seq::<Seq<char>>::empty());
        assert(split_lines(suffix).map_values(|l: Seq<char>| trimmed(l)) =~= Seq::<
            Seq<char>,
        >::empty());
        assert(nonblank(Seq::<Seq<char>>::empty()) =~= Seq::<Seq<char>>::empty());
        assert(trimmed(suffix) == suffix);
    } else {
        assert forall|j: int| 0 <= j < suffix.len() implies suffix[j] != '\n' by {
            assert(suffix[j] == s[start + j]);
        }
        lemma_no_newline(suffix);
        assert(split_lines(suffix) == seq![suffix]);
        let mapped = split_lines(suffix).map_values(|l: Seq<char>| trimmed(l));
        assert(mapped =~= seq![trimmed(suffix)]);
        assert(mapped.drop_last() =~= Seq::<Seq<char>>::empty());
        assert(nonblank(Seq::<Seq<char>>::empty()) =~= Seq::<Seq<char>>::empty());
        assert(mapped.last() == trimmed(suffix));
        if trimmed(suffix).len() == 0 {
            assert(nonblank(mapped) =~= Seq::<Seq<char>>::empty());
        } else {
            assert(nonblank(mapped) =~= Seq::<Seq<char>>::empty().push(trimmed(suffix)));
            assert(nonblank(mapped) =~= seq![trimmed(suffix)]);
        }
    }
}

/// The newline-terminated concatenation of the enabled mods' locators.
pub open spec fn mod_string(mods: Seq<ModConfigView>) -> Seq<char>
    decreases mods.len(),
{
    if mods.len() == 0 {
        Seq::empty()
    } else {
        mod_string(mods.drop_last()) + if mods.last().enabled {
            mods.last().url + seq!['\n']
        } else {
            Seq::empty()
        }
    }
}

/// Builds the newline-terminated list of the enabled mods' locators.
pub fn build_mod_string(mods: &Vec<ModConfig>) -> (r: String)
    ensures
        r@ == mod_string(mods@.map_values(|m: ModConfig| m@)),
{
    let ghost mv = mods@.map_values(|m: ModConfig| m@);
    let mut out = String::new();
    let n = mods.len();
    let mut i: usize = 0;
    proof {
        assert(out@ =~= mod_string(mv.take(0)));
    }
    while i < n
        invariant
            n == mods@.len(),
            mv == mods@.map_values(|m: ModConfig| m@),
            mv.len() == n,
            i <= n,
            out@ == mod_string(mv.take(i as int)),
        decreases n - i,
    {
        let ghost out0 = out@;
        if mods[i].enabled {
            out.append(mods[i].spec.url.as_str());
            out.append("\n");
            proof {
                reveal_strlit("\n");
                assert(out@ =~= out0 + (mv[i as int].url + seq!['\n']));
            }
        }
        proof {
            assert(mv[i as int] == mods@[i as int]@);
            assert(mv.take(i as int + 1).drop_last() =~= mv.take(i as int));
            assert(mv.take(i as int + 1).last() == mv[i as int]);
            assert(out@ =~= mod_string(mv.take(i as int + 1)));
        }
        i += 1;
    }
    proof {
        assert(mv.take(n as int) =~= mv);
    }
    out
}

} // verus!
