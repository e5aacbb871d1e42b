//! Visual width: the number of terminal columns a string occupies once the
//! ANSI `ESC [ ... m` sequences in it are skipped.
//!
//! The count is of Unicode scalar values: wide characters and combining marks
//! count as one column each.

use vstd::prelude::*;
use crate::text::chars_of;

verus! {

/// The escape introducer, `ESC` (0x1B).
pub const ESC: char = '\x1b';

/// Columns taken by `s` when scanning starts in the given state: `inside` is
/// true while an escape sequence opened by `ESC [` has not yet met its `m`.
pub open spec fn width_from(s: Seq<char>, inside: bool) -> nat
    decreases s.len(),
{
    if s.len() == 0 {
        0
    } else if inside {
        width_from(s.skip(1), s[0] != 'm')
    } else if s[0] == ESC && s.len() >= 2 && s[1] == '[' {
        width_from(s.skip(2), true)
    } else {
        1 + width_from(s.skip(1), false)
    }
}

/// Whether scanning `s` from the given state ends inside an unterminated
/// escape sequence.
pub open spec fn ends_inside(s: Seq<char>, inside: bool) -> bool
    decreases s.len(),
{
    if s.len() == 0 {
        inside
    } else if inside {
        ends_inside(s.skip(1), s[0] != 'm')
    } else if s[0] == ESC && s.len() >= 2 && s[1] == '[' {
        ends_inside(s.skip(2), true)
    } else {
        ends_inside(s.skip(1), false)
    }
}

/// The visual width of `s`.
pub open spec fn visual_width(s: Seq<char>) -> nat {
    width_from(s, false)
}

/// `s` leaves no escape sequence open at its end.
pub open spec fn closes_escapes(s: Seq<char>) -> bool {
    !ends_inside(s, false)
}

/// `s` holds no `ESC` character at all.
pub open spec fn no_escape(s: Seq<char>) -> bool {
    forall|i: int| 0 <= i < s.len() ==> s[i] != ESC
}

/// No `ESC` in `s` is directly followed by `[`.
pub open spec fn no_sequence_start(s: Seq<char>) -> bool {
    forall|i: int| 0 <= i < s.len() - 1 ==> !(#[trigger] s[i] == ESC && s[i + 1] == '[')
}

/// A valid SGR sequence: `ESC [`, parameters without `m`, then `m`.
pub open spec fn is_sgr(s: Seq<char>) -> bool {
    &&& s.len() >= 3
    &&& s[0] == ESC
    &&& s[1] == '['
    &&& s.last() == 'm'
    &&& forall|i: int| 2 <= i < s.len() - 1 ==> s[i] != 'm'
}

/// Where `a` does not end with an `ESC` that `b` could extend into an escape
/// sequence, `a + b` is measured as `a` and then `b` from the state `a` left.
pub proof fn lemma_width_concat(a: Seq<char>, b: Seq<char>, inside: bool)
    requires
        a.len() == 0 || a.last() != ESC || b.len() == 0 || b[0] != '[',
    ensures
        width_from(a + b, inside) == width_from(a, inside) + width_from(b, ends_inside(a, inside)),
        ends_inside(a + b, inside) == ends_inside(b, ends_inside(a, inside)),
    decreases a.len(),
{
    if a.len() == 0 {
        assert(a + b =~= b);
    } else if inside {
        assert((a + b).skip(1) =~= a.skip(1) + b);
        lemma_width_concat(a.skip(1), b, a[0] != 'm');
    } else if a[0] == ESC && a.len() >= 2 && a[1] == '[' {
        assert((a + b).skip(2) =~= a.skip(2) + b);
        lemma_width_concat(a.skip(2), b, true);
    } else {
        assert((a + b).skip(1) =~= a.skip(1) + b);
        lemma_width_concat(a.skip(1), b, false);
    }
}

/// Text without `ESC` is one column per character and opens no sequence.
pub proof fn lemma_width_plain(s: Seq<char>)
    requires
        no_escape(s),
    ensures
        width_from(s, false) == s.len(),
        !ends_inside(s, false),
    decreases s.len(),
{
    if s.len() > 0 {
        lemma_width_plain(s.skip(1));
    }
}

/// Text where no `ESC` is followed by `[` is one column per character.
pub proof fn lemma_width_no_sequence(s: Seq<char>)
    requires
        no_sequence_start(s),
    ensures
        width_from(s, false) == s.len(),
    decreases s.len(),
{
    if s.len() > 0 {
        assert forall|i: int| 0 <= i < s.skip(1).len() - 1 implies !(#[trigger] s.skip(1)[i]
            == ESC && s.skip(1)[i + 1] == '[') by {
            assert(s.skip(1)[i] == s[i + 1]);
        }
        lemma_width_no_sequence(s.skip(1));
    }
}

/// The parameters and final `m` of an SGR sequence take no column and close
/// the sequence.
proof fn lemma_sgr_tail(t: Seq<char>, rest: Seq<char>)
    requires
        t.len() >= 1,
        t.last() == 'm',
        forall|i: int| 0 <= i < t.len() - 1 ==> t[i] != 'm',
    ensures
        width_from(t + rest, true) == width_from(rest, false),
    decreases t.len(),
{
    assert((t + rest).skip(1) =~= t.skip(1) + rest);
    if t.len() == 1 {
        assert(t.skip(1) + rest =~= rest);
    } else {
        assert(t[0] != 'm');
        lemma_sgr_tail(t.skip(1), rest);
    }
}

/// An SGR sequence takes no column.
pub proof fn lemma_sgr_width(p: Seq<char>, rest: Seq<char>)
    requires
        is_sgr(p),
    ensures
        width_from(p + rest, false) == width_from(rest, false),
{
    assert((p + rest).skip(2) =~= p.skip(2) + rest);
    lemma_sgr_tail(p.skip(2), rest);
}

/// A string made only of valid SGR sequences has visual width zero.
pub proof fn lemma_only_sgr_is_zero_width(parts: Seq<Seq<char>>)
    requires
        forall|k: int| 0 <= k < parts.len() ==> is_sgr(#[trigger] parts[k]),
    ensures
        visual_width(parts.flatten()) == 0,
    decreases parts.len(),
{
    if parts.len() > 0 {
        lemma_only_sgr_is_zero_width(parts.drop_first());
        lemma_sgr_width(parts.first(), parts.drop_first().flatten());
    }
}

/// No string is wider than its length.
pub proof fn lemma_width_at_most_len(s: Seq<char>, inside: bool)
    ensures
        width_from(s, inside) <= s.len(),
    decreases s.len(),
{
    if s.len() > 0 {
        if inside {
            lemma_width_at_most_len(s.skip(1), s[0] != 'm');
        } else if s[0] == ESC && s.len() >= 2 && s[1] == '[' {
            lemma_width_at_most_len(s.skip(2), true);
        } else {
            lemma_width_at_most_len(s.skip(1), false);
        }
    }
}

/// The number of terminal columns `s` occupies: every character counts one,
/// except the escape sequences from `ESC [` up to and including the next `m`.
pub fn visual_len(s: &str) -> (r: usize)
    ensures
        r == visual_width(s@),
{
    let v = chars_of(s);
    let n = v.len();
    let mut count: usize = 0;
    let mut inside = false;
    let mut i: usize = 0;
    assert(v@.subrange(0, n as int) =~= v@);
    while i < n
        invariant
            n == v@.len(),
            v@ == s@,
            i <= n,
            count <= i,
            count + width_from(v@.subrange(i as int, n as int), inside) == visual_width(s@),
        decreases n - i,
    {
        let ghost rest = v@.subrange(i as int, n as int);
        let ch = v[i];
        if inside {
            assert(rest.skip(1) =~= v@.subrange(i + 1, n as int));
            inside = ch != 'm';
            i = i + 1;
        } else if ch == ESC && i + 1 < n && v[i + 1] == '[' {
            assert(rest.skip(2) =~= v@.subrange(i + 2, n as int));
            inside = true;
            i = i + 2;
        } else {
            assert(rest.skip(1) =~= v@.subrange(i + 1, n as int));
            count = count + 1;
            i = i + 1;
        }
    }
    assert(v@.subrange(n as int, n as int) =~= Seq::<char>::empty());
    count
}

} // verus!
