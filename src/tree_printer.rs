//! The layout engine: a branch is one position in a printed tree, carrying
//! its indent level and the display configuration. It draws connector lines,
//! boxed table lines padded to the terminal width by visual width, and
//! numbered code listings.
//!
//! Width arithmetic floors at zero: content wider than the terminal gets no
//! padding and overflows the line; it is never cut.

use vstd::prelude::*;
use crate::common_types::Status;
use crate::text::{
    push_char, push_repeated, push_repeated_str, push_decimal, repeat_char, repeat_seq, room,
    room_left, decimal, chars_of, join_lines, push_joined, split_lines, string_of_range,
    text_lines, trim, trim_bounds, to_decimal,
};
use crate::theme_config::DisplayConfig;
use crate::width::{
    closes_escapes, lemma_width_at_most_len, lemma_width_concat, lemma_width_plain, no_escape,
    visual_len, visual_width,
};

verus! {

#[derive(Debug, Clone, Copy, PartialEq, Eq, Structural)]
pub enum BranchStyle {
    /// Each level draws a vertical line.
    Unicode,
    /// Each level is blank.
    Indent,
}

/// What one indent level draws.
pub open spec fn indent_unit(style: BranchStyle) -> Seq<char> {
    match style {
        BranchStyle::Unicode => seq!['│', ' ', ' '],
        BranchStyle::Indent => seq![' ', ' ', ' '],
    }
}

impl BranchStyle {
    /// What one indent level draws: `│  ` or three blanks.
    pub fn as_str(&self) -> (r: &'static str)
        ensures
            r@ == indent_unit(*self),
    {
        match self {
            BranchStyle::Unicode => {
                proof {
                    reveal_strlit("│  ");
                }
                "│  "
            },
            BranchStyle::Indent => {
                proof {
                    reveal_strlit("   ");
                }
                "   "
            },
        }
    }
}

#[derive(Clone)]
pub struct Branch {
    pub branch_name: String,
    pub branch_message: String,
    pub branch_indent_level: usize,
    pub branch_display_config: DisplayConfig,
    pub branch_style: BranchStyle,
}

/// The indent drawn before a line of branch `b`.
pub open spec fn indent_of(b: Branch) -> Seq<char> {
    repeat_seq(indent_unit(b.branch_style), b.branch_indent_level as nat)
}

/// The terminal width, in columns, that branch `b` lays out for.
pub open spec fn columns(b: Branch) -> int {
    b.branch_display_config.terminal_size.0 as int
}

/// The columns the indent of branch `b` takes.
pub open spec fn indent_width(b: Branch) -> int {
    3 * b.branch_indent_level
}

/// The boxed table line of branch `b` around `content`, padded with blanks
/// so that it fills the terminal width where `content` leaves room.
pub open spec fn table_line(b: Branch, content: Seq<char>) -> Seq<char> {
    let pad = room(columns(b), visual_width(content) + 4 + indent_width(b));
    indent_of(b) + seq!['│', ' '] + content + seq![' '] + repeat_char(' ', pad) + seq!['│']
}

/// The header line of a table titled `title`.
pub open spec fn table_header(b: Branch, title: Seq<char>) -> Seq<char> {
    let fill = room(columns(b), visual_width(title) + 5 + indent_width(b));
    indent_of(b) + seq!['├', '─', ' '] + title + repeat_char('─', fill) + seq![' ', '╮']
}

/// The footer line of a table.
pub open spec fn table_footer(b: Branch) -> Seq<char> {
    let fill = room(columns(b), 3 + indent_width(b));
    indent_of(b) + seq!['├', '─'] + repeat_char('─', fill) + seq!['╯']
}

/// A code line: the number right-aligned in a gutter of `gutter` columns
/// (never cut where it is wider), then `| ` and the code.
pub open spec fn numbered_line(number: nat, code: Seq<char>, gutter: nat) -> Seq<char> {
    repeat_char(' ', room(gutter as int, decimal(number).len() as int)) + decimal(number) + seq![
        '|',
        ' ',
    ] + code
}

/// The connector drawn where branch `b` enters a child branch `name`.
pub open spec fn entry_line(b: Branch, name: Seq<char>) -> Seq<char> {
    let corner = match b.branch_style {
        BranchStyle::Indent => '╰',
        BranchStyle::Unicode => '├',
    };
    indent_of(b) + seq![corner, '─', ' '] + name
}

proof fn lemma_repeat_plain(unit: Seq<char>, n: nat)
    requires
        no_escape(unit),
    ensures
        no_escape(repeat_seq(unit, n)),
        repeat_seq(unit, n).len() == n * unit.len(),
    decreases n,
{
    if n > 0 {
        lemma_repeat_plain(unit, (n - 1) as nat);
        let prev = repeat_seq(unit, (n - 1) as nat);
        assert forall|i: int| 0 <= i < repeat_seq(unit, n).len() implies repeat_seq(unit, n)[i]
            != crate::width::ESC by {
            if i < prev.len() {
                assert(repeat_seq(unit, n)[i] == prev[i]);
            } else {
                assert(repeat_seq(unit, n)[i] == unit[i - prev.len()]);
            }
        }
        let len = unit.len();
        assert(repeat_seq(unit, n) == prev + unit);
        assert(repeat_seq(unit, n).len() == prev.len() + len);
        let m = (n - 1) as nat;
        assert(prev.len() == m * len);
        assert(n * len == m * len + len) by (nonlinear_arith)
            requires
                n == m + 1,
        ;
    } else {
        assert(n * unit.len() == 0) by (nonlinear_arith)
            requires
                n == 0,
        ;
    }
}

proof fn lemma_indent_plain(b: Branch)
    ensures
        no_escape(indent_of(b)),
        indent_of(b).len() == indent_width(b),
{
    let unit = indent_unit(b.branch_style);
    assert(unit.len() == 3);
    assert(no_escape(unit));
    lemma_repeat_plain(unit, b.branch_indent_level as nat);
}

/// `a + content + z`, with `a` and `z` free of escapes and `z` not starting
/// with `[`, is as wide as its parts.
proof fn lemma_framed_width(a: Seq<char>, content: Seq<char>, z: Seq<char>)
    requires
        no_escape(a),
        no_escape(z),
        z.len() > 0,
        z[0] != '[',
        closes_escapes(content),
    ensures
        visual_width(a + content + z) == a.len() + visual_width(content) + z.len(),
{
    lemma_width_plain(a);
    lemma_width_plain(z);
    lemma_width_concat(content, z, false);
    lemma_width_concat(a, content + z, false);
    assert(a + content + z =~= a + (content + z));
}

impl Branch {
    /// A root branch, at indent level zero.
    pub fn new(display_config: DisplayConfig, style: BranchStyle) -> (r: Self)
        ensures
            r.branch_name@ == Seq::<char>::empty(),
            r.branch_message@ == Seq::<char>::empty(),
            r.branch_indent_level == 0,
            r.branch_display_config == display_config,
            r.branch_style == style,
    {
        Branch {
            branch_name: String::new(),
            branch_message: String::new(),
            branch_indent_level: 0,
            branch_display_config: display_config,
            branch_style: style,
        }
    }

    /// The connector line that introduces child branch `name`, drawn at this
    /// branch's level; it is to be shown before the child is used.
    pub fn entry_line(&self, name: &str) -> (r: String)
        ensures
            r@ == entry_line(*self, name@),
    {
        let mut r = self.format_indent();
        match self.branch_style {
            BranchStyle::Indent => push_char(&mut r, '╰'),
            BranchStyle::Unicode => push_char(&mut r, '├'),
        }
        push_char(&mut r, '─');
        push_char(&mut r, ' ');
        r.append(name);
        r
    }

    /// The child branch `name`, one level deeper, with a copy of this
    /// branch's configuration and style; this branch is left as it is.
    /// Its connector is `entry_line(name)`.
    pub fn enter_branch(&self, name: &str) -> (r: Self)
        requires
            self.branch_indent_level < usize::MAX,
        ensures
            r.branch_name@ == name@,
            r.branch_message@ == Seq::<char>::empty(),
            r.branch_indent_level == self.branch_indent_level + 1,
            r.branch_display_config == self.branch_display_config,
            r.branch_style == self.branch_style,
    {
        Branch {
            branch_name: name.to_owned(),
            branch_message: String::new(),
            branch_indent_level: self.branch_indent_level + 1,
            branch_display_config: self.branch_display_config.duplicate(),
            branch_style: self.branch_style,
        }
    }

    /// The closing line of this branch. The status does not change it.
    pub fn leave_branch(&self, text: &str, _status: Status) -> (r: String)
        ensures
            r@ == indent_of(*self) + seq!['╰', '─', ' '] + text@,
    {
        let mut r = self.format_indent();
        push_char(&mut r, '╰');
        push_char(&mut r, '─');
        push_char(&mut r, ' ');
        r.append(text);
        r
    }

    /// The indent: the style's unit once per level.
    pub fn format_indent(&self) -> (r: String)
        ensures
            r@ == indent_of(*self),
    {
        let mut r = String::new();
        push_repeated_str(&mut r, self.branch_style.as_str(), self.branch_indent_level);
        assert(r@ =~= indent_of(*self));
        r
    }

    /// The indent, then `prefix`, then `text`.
    pub fn format_branch_line(&self, text: &str, prefix: &str) -> (r: String)
        ensures
            r@ == indent_of(*self) + prefix@ + text@,
    {
        let mut r = self.format_indent();
        r.append(prefix);
        r.append(text);
        r
    }

    /// `content` boxed between `│ ` and ` │`, padded with blanks to the
    /// terminal width by visual width. Where `content` leaves room and opens
    /// no escape sequence it does not close, the line is exactly as wide as
    /// the terminal.
    pub fn format_table_line(&self, content: &str) -> (r: String)
        ensures
            r@ == table_line(*self, content@),
            closes_escapes(content@) && visual_width(content@) + 4 + indent_width(*self)
                <= columns(*self) ==> visual_width(r@) == columns(*self),
    {
        let vl = visual_len(content);
        let used: u128 = vl as u128 + 4 + self.branch_indent_level as u128 * 3;
        let pad = room_left(self.branch_display_config.terminal_size.0, used);
        let mut r = self.format_indent();
        push_char(&mut r, '│');
        push_char(&mut r, ' ');
        r.append(content);
        push_char(&mut r, ' ');
        push_repeated(&mut r, ' ', pad);
        push_char(&mut r, '│');
        proof {
            let a = indent_of(*self) + seq!['│', ' '];
            let z = seq![' '] + repeat_char(' ', pad as nat) + seq!['│'];
            assert(r@ =~= a + content@ + z);
            lemma_indent_plain(*self);
            assert(no_escape(a));
            assert(z[0] != '[');
            assert(no_escape(z));
            if closes_escapes(content@) {
                lemma_framed_width(a, content@, z);
            }
        }
        r
    }

    /// The top border of a table: `├─ `, the title, `─` up to the terminal
    /// width, then ` ╮`.
    pub fn format_table_header(&self, title: &str) -> (r: String)
        ensures
            r@ == table_header(*self, title@),
            closes_escapes(title@) && visual_width(title@) + 5 + indent_width(*self) <= columns(
                *self,
            ) ==> visual_width(r@) == columns(*self),
    {
        let vl = visual_len(title);
        let used: u128 = vl as u128 + 5 + self.branch_indent_level as u128 * 3;
        let fill = room_left(self.branch_display_config.terminal_size.0, used);
        let mut r = self.format_indent();
        push_char(&mut r, '├');
        push_char(&mut r, '─');
        push_char(&mut r, ' ');
        r.append(title);
        push_repeated(&mut r, '─', fill);
        push_char(&mut r, ' ');
        push_char(&mut r, '╮');
        assert(r@ =~= table_header(*self, title@));
        proof {
            let a = indent_of(*self) + seq!['├', '─', ' '];
            let z = repeat_char('─', fill as nat) + seq![' ', '╮'];
            assert(r@ =~= a + title@ + z);
            lemma_indent_plain(*self);
            assert(no_escape(a));
            assert(z[0] != '[');
            assert(no_escape(z));
            if closes_escapes(title@) {
                lemma_framed_width(a, title@, z);
            }
        }
        r
    }

    /// The bottom border of a table: `├─`, `─` up to the terminal width,
    /// then `╯`.
    pub fn format_table_footer(&self) -> (r: String)
        ensures
            r@ == table_footer(*self),
            3 + indent_width(*self) <= columns(*self) ==> visual_width(r@) == columns(*self),
    {
        let used: u128 = 3 + self.branch_indent_level as u128 * 3;
        let fill = room_left(self.branch_display_config.terminal_size.0, used);
        let mut r = self.format_indent();
        push_char(&mut r, '├');
        push_char(&mut r, '─');
        push_repeated(&mut r, '─', fill);
        push_char(&mut r, '╯');
        assert(r@ =~= table_footer(*self));
        proof {
            lemma_indent_plain(*self);
            let z = repeat_char('─', fill as nat) + seq!['╯'];
            assert(no_escape(seq!['├', '─']));
            assert(no_escape(z));
            assert(no_escape(r@));
            lemma_width_plain(r@);
        }
        r
    }

    /// Line `line_num` of a listing: the number right-aligned in a gutter of
    /// `line_num_indent` columns, then `| ` and `code_line`.
    pub fn format_code_line(&self, line_num: usize, code_line: &str, line_num_indent: usize) -> (r: String)
        ensures
            r@ == numbered_line(line_num as nat, code_line@, line_num_indent as nat),
    {
        let mut digits = String::new();
        push_decimal(&mut digits, line_num);
        assert(digits@ =~= decimal(line_num as nat));
        let len = digits.as_str().unicode_len();
        let pad = room_left(line_num_indent, len as u128);
        let mut r = String::new();
        push_repeated(&mut r, ' ', pad);
        r.append(digits.as_str());
        push_char(&mut r, '|');
        push_char(&mut r, ' ');
        r.append(code_line);
        assert(r@ =~= numbered_line(line_num as nat, code_line@, line_num_indent as nat));
        r
    }
}

/// The index of the last blank in `t[0..=i]`, or -1 where there is none.
pub open spec fn last_blank(t: Seq<char>, i: int) -> int
    decreases i + 1,
{
    if i < 0 {
        -1
    } else if t[i] == ' ' {
        i
    } else {
        last_blank(t, i - 1)
    }
}

/// Greedy word wrap of `t` to `w` columns. What fits is kept whole;
/// otherwise the segment ends at the last blank among the first `w`
/// characters, which is dropped, or, where there is none, it is cut after
/// `w` characters.
pub open spec fn wrap(t: Seq<char>, w: nat) -> Seq<Seq<char>>
    decreases t.len(),
{
    if t.len() == 0 {
        Seq::empty()
    } else if t.len() <= w || w == 0 {
        seq![t]
    } else {
        let bp = last_blank(t, w - 1);
        if 0 <= bp < w {
            seq![t.take(bp)] + wrap(t.skip(bp + 1), w)
        } else {
            seq![t.take(w as int)] + wrap(t.skip(w as int), w)
        }
    }
}

/// The segments of the lines `ls`, each trimmed and wrapped to `w` columns.
pub open spec fn wrapped_segments(ls: Seq<Seq<char>>, w: nat) -> Seq<Seq<char>>
    decreases ls.len(),
{
    if ls.len() == 0 {
        Seq::empty()
    } else {
        wrap(trim(ls[0]), w) + wrapped_segments(ls.drop_first(), w)
    }
}

/// The widest segment a table of branch `b` holds: the terminal width less
/// the borders and the indent, and at least one column.
pub open spec fn wrap_width(b: Branch) -> nat {
    let w = room(columns(b), 3 + indent_width(b));
    if w == 0 { 1 } else { w }
}

/// The segments `format_table_multi_line` boxes for `text`.
pub open spec fn table_segments(b: Branch, text: Seq<char>) -> Seq<Seq<char>> {
    wrapped_segments(text_lines(text), wrap_width(b))
}

/// The table lines of the segments `segs`.
pub open spec fn table_rows(b: Branch, segs: Seq<Seq<char>>) -> Seq<Seq<char>> {
    segs.map_values(|seg: Seq<char>| table_line(b, seg))
}

proof fn lemma_last_blank(t: Seq<char>, i: int)
    requires
        -1 <= i < t.len(),
    ensures
        -1 <= last_blank(t, i) <= i,
        last_blank(t, i) >= 0 ==> t[last_blank(t, i)] == ' ',
    decreases i + 1,
{
    if i >= 0 && t[i] != ' ' {
        lemma_last_blank(t, i - 1);
    }
}

/// The segments of `text` wrapped greedily to `width` columns (see `wrap`).
pub fn wrap_segments(text: &str, width: usize) -> (r: Vec<String>)
    requires
        width >= 1,
    ensures
        r@.len() == wrap(text@, width as nat).len(),
        forall|k: int| 0 <= k < r@.len() ==> (#[trigger] r@[k])@ == wrap(text@, width as nat)[k],
{
    let w = width;
    let line = chars_of(text);
    let hi = line.len();
    let ghost all = wrap(text@, w as nat);
    let mut r: Vec<String> = Vec::new();
    let mut pos: usize = 0;
    assert(line@.subrange(0, hi as int) =~= text@);
    while pos < hi
        invariant
            w >= 1,
            pos <= hi,
            hi == line@.len(),
            line@ == text@,
            all == wrap(text@, w as nat),
            r@.len() + wrap(line@.subrange(pos as int, hi as int), w as nat).len() == all.len(),
            forall|k: int| 0 <= k < r@.len() ==> (#[trigger] r@[k])@ == all[k],
            forall|k: int|
                0 <= k < wrap(line@.subrange(pos as int, hi as int), w as nat).len() ==> all[r@.len()
                    + k] == #[trigger] wrap(line@.subrange(pos as int, hi as int), w as nat)[k],
        decreases hi - pos,
    {
        let ghost t = line@.subrange(pos as int, hi as int);
        let end: usize;
        let next: usize;
        if hi - pos <= w {
            end = hi;
            next = hi;
            proof {
                assert(wrap(t, w as nat) == seq![t]);
                assert(line@.subrange(hi as int, hi as int) =~= Seq::<char>::empty());
            }
        } else {
            let mut j: usize = pos + w;
            while j > pos && line[j - 1] != ' '
                invariant
                    pos < j <= pos + w || j == pos,
                    pos + w < hi,
                    hi == line@.len(),
                    t == line@.subrange(pos as int, hi as int),
                    last_blank(t, w - 1) == last_blank(t, j - 1 - pos),
                decreases j,
            {
                assert(t[j - 1 - pos] == line@[j - 1]);
                j = j - 1;
            }
            proof {
                lemma_last_blank(t, w - 1);
                if j > pos {
                    assert(t[j - 1 - pos] == line@[j - 1]);
                }
            }
            if j > pos {
                end = j - 1;
                next = j;
                proof {
                    let bp = (j - 1 - pos) as int;
                    assert(t.take(bp) =~= line@.subrange(pos as int, end as int));
                    assert(t.skip(bp + 1) =~= line@.subrange(next as int, hi as int));
                }
            } else {
                end = pos + w;
                next = pos + w;
                proof {
                    assert(t.take(w as int) =~= line@.subrange(pos as int, end as int));
                    assert(t.skip(w as int) =~= line@.subrange(next as int, hi as int));
                }
            }
        }
        let chunk = string_of_range(&line, pos, end);
        let ghost after = wrap(line@.subrange(next as int, hi as int), w as nat);
        proof {
            assert(wrap(t, w as nat) == seq![chunk@] + after);
            assert forall|k: int| 0 <= k < after.len() implies all[r@.len() + 1 + k]
                == #[trigger] after[k] by {
                assert(wrap(t, w as nat)[k + 1] == after[k]);
            }
            assert(all[r@.len() as int] == wrap(t, w as nat)[0]);
        }
        r.push(chunk);
        pos = next;
    }
    proof {
        assert(line@.subrange(hi as int, hi as int) =~= Seq::<char>::empty());
    }
    r
}

impl Branch {
    /// `text` as boxed table lines: each of its lines trimmed, wrapped to the
    /// columns left inside the box, and each segment boxed by
    /// `format_table_line`; the lines are joined by `\n`.
    pub fn format_table_multi_line(&self, lines: &str) -> (r: String)
        ensures
            r@ == join_lines(table_rows(*self, table_segments(*self, lines@))),
    {
        let used: u128 = 3 + self.branch_indent_level as u128 * 3;
        let inner = room_left(self.branch_display_config.terminal_size.0, used);
        let w: usize = if inner == 0 { 1 } else { inner };
        let v = chars_of(lines);
        let ls = split_lines(&v);
        let ghost all = text_lines(lines@);
        let ghost total = wrapped_segments(all, w as nat);
        let mut out = String::new();
        let mut first = true;
        let ghost mut done: Seq<Seq<char>> = Seq::empty();
        let mut k: usize = 0;
        assert(all.skip(0) =~= all);
        assert(out@ =~= join_lines(table_rows(*self, done)));
        while k < ls.len()
            invariant
                w == wrap_width(*self),
                w >= 1,
                ls@.len() == all.len(),
                forall|m: int| 0 <= m < ls@.len() ==> (#[trigger] ls@[m])@ == all[m],
                k <= ls@.len(),
                first == (done.len() == 0),
                out@ == join_lines(table_rows(*self, done)),
                done + wrapped_segments(all.skip(k as int), w as nat) == total,
            decreases ls.len() - k,
        {
            let line = &ls[k];
            let (lo, hi) = trim_bounds(line);
            let trimmed = string_of_range(line, lo, hi);
            let segs = wrap_segments(trimmed.as_str(), w);
            let ghost ws = wrap(trimmed@, w as nat);
            proof {
                assert(all.skip(k as int).drop_first() =~= all.skip(k + 1));
                assert(all.skip(k as int)[0] == all[k as int]);
                assert(trimmed@ == trim(all[k as int]));
                assert(done + wrapped_segments(all.skip(k as int), w as nat) =~= done + ws
                    + wrapped_segments(all.skip(k + 1), w as nat));
                assert(ws.skip(0) =~= ws);
            }
            let mut m: usize = 0;
            while m < segs.len()
                invariant
                    segs@.len() == ws.len(),
                    forall|i: int| 0 <= i < segs@.len() ==> (#[trigger] segs@[i])@ == ws[i],
                    m <= segs@.len(),
                    first == (done.len() == 0),
                    out@ == join_lines(table_rows(*self, done)),
                    done + ws.skip(m as int) + wrapped_segments(all.skip(k + 1), w as nat) == total,
                decreases segs.len() - m,
            {
                let seg = &segs[m];
                let row = self.format_table_line(seg.as_str());
                push_joined(&mut out, row.as_str(), first, Ghost(table_rows(*self, done)));
                proof {
                    assert(table_rows(*self, done).push(row@) =~= table_rows(*self, done.push(seg@)));
                    assert(ws.skip(m as int) =~= seq![seg@] + ws.skip(m + 1));
                    assert(done + ws.skip(m as int) =~= done.push(seg@) + ws.skip(m + 1));
                    done = done.push(seg@);
                }
                first = false;
                m = m + 1;
            }
            proof {
                assert(ws.skip(m as int) =~= Seq::<Seq<char>>::empty());
                assert(done + Seq::<Seq<char>>::empty() =~= done);
            }
            k = k + 1;
        }
        proof {
            assert(all.skip(k as int) =~= Seq::<Seq<char>>::empty());
            assert(done + wrapped_segments(Seq::<Seq<char>>::empty(), w as nat) =~= done);
        }
        out
    }
}

proof fn lemma_wrap_fits(t: Seq<char>, w: nat)
    requires
        w >= 1,
    ensures
        forall|k: int| 0 <= k < wrap(t, w).len() ==> (#[trigger] wrap(t, w)[k]).len() <= w,
    decreases t.len(),
{
    if t.len() > w {
        let bp = last_blank(t, w - 1);
        lemma_last_blank(t, w - 1);
        let (head, tail) = if 0 <= bp < w {
            (t.take(bp), t.skip(bp + 1))
        } else {
            (t.take(w as int), t.skip(w as int))
        };
        lemma_wrap_fits(tail, w);
        assert(wrap(t, w) == seq![head] + wrap(tail, w));
        assert forall|k: int| 0 <= k < wrap(t, w).len() implies (#[trigger] wrap(t, w)[k]).len()
            <= w by {
            if k > 0 {
                assert(wrap(t, w)[k] == wrap(tail, w)[k - 1]);
            }
        }
    } else if t.len() > 0 {
        assert(wrap(t, w) == seq![t]);
    }
}

proof fn lemma_segments_fit(ls: Seq<Seq<char>>, w: nat)
    requires
        w >= 1,
    ensures
        forall|k: int| 0 <= k < wrapped_segments(ls, w).len() ==> (#[trigger] wrapped_segments(
            ls,
            w,
        )[k]).len() <= w,
    decreases ls.len(),
{
    if ls.len() > 0 {
        lemma_wrap_fits(trim(ls[0]), w);
        lemma_segments_fit(ls.drop_first(), w);
        let a = wrap(trim(ls[0]), w);
        let b = wrapped_segments(ls.drop_first(), w);
        assert forall|k: int| 0 <= k < (a + b).len() implies (#[trigger] (a + b)[k]).len() <= w by {
            if k >= a.len() {
                assert((a + b)[k] == b[k - a.len()]);
            }
        }
    }
}

/// No segment that `format_table_multi_line` boxes is wider than the
/// columns inside the box (one column at least, where the terminal leaves
/// none): where no blank allows a break, a word is cut at that width.
pub proof fn lemma_table_segments_fit(b: Branch, text: Seq<char>)
    ensures
        forall|k: int| 0 <= k < table_segments(b, text).len() ==> visual_width(
            #[trigger] table_segments(b, text)[k],
        ) <= wrap_width(b),
{
    lemma_segments_fit(text_lines(text), wrap_width(b));
    assert forall|k: int| 0 <= k < table_segments(b, text).len() implies visual_width(
        #[trigger] table_segments(b, text)[k],
    ) <= wrap_width(b) by {
        lemma_width_at_most_len(table_segments(b, text)[k], false);
    }
}

/// The gutter width of a listing of `count` lines numbered from `first`:
/// the number of digits of the last line number.
pub open spec fn gutter_width(first: nat, count: nat) -> nat {
    if count == 0 {
        0
    } else {
        decimal((first + count - 1) as nat).len()
    }
}

/// One boxed line of a listing, padded to the terminal width.
pub open spec fn code_row(b: Branch, number: nat, code: Seq<char>, gutter: nat) -> Seq<char> {
    let numbered = numbered_line(number, code, gutter);
    let pad = room(columns(b), indent_width(b) + visual_width(numbered) + 6);
    indent_of(b) + seq!['│', ' '] + numbered + repeat_char(' ', pad) + seq![' ', '│']
}

/// The boxed lines of the listing `code`, numbered from `first`.
pub open spec fn code_rows(b: Branch, first: nat, code: Seq<char>) -> Seq<Seq<char>> {
    let ls = text_lines(code);
    let gutter = gutter_width(first, ls.len());
    Seq::new(ls.len(), |k: int| code_row(b, (first + k) as nat, ls[k], gutter))
}

impl Branch {
    /// The lines of `code_snippet` as a boxed listing numbered from
    /// `line_num_first`, joined by `\n`.
    pub fn format_table_code_multi_line(&self, line_num_first: usize, code_snippet: &str) -> (r: String)
        requires
            line_num_first + text_lines(code_snippet@).len() <= usize::MAX + 1,
        ensures
            r@ == join_lines(code_rows(*self, line_num_first as nat, code_snippet@)),
    {
        let v = chars_of(code_snippet);
        let ls = split_lines(&v);
        let n = ls.len();
        let ghost rows = code_rows(*self, line_num_first as nat, code_snippet@);
        let gutter: usize = if n == 0 {
            0
        } else {
            to_decimal(line_num_first + (n - 1)).as_str().unicode_len()
        };
        let mut out = String::new();
        let mut k: usize = 0;
        assert(rows.take(0) =~= Seq::<Seq<char>>::empty());
        while k < n
            invariant
                n == ls@.len(),
                n == text_lines(code_snippet@).len(),
                forall|m: int| 0 <= m < ls@.len() ==> (#[trigger] ls@[m])@ == text_lines(
                    code_snippet@,
                )[m],
                line_num_first + n <= usize::MAX + 1,
                gutter == gutter_width(line_num_first as nat, n as nat),
                rows == code_rows(*self, line_num_first as nat, code_snippet@),
                rows.len() == n,
                k <= n,
                out@ == join_lines(rows.take(k as int)),
            decreases n - k,
        {
            let line = &ls[k];
            let code = string_of_range(line, 0, line.len());
            assert(line@.subrange(0, line@.len() as int) =~= line@);
            let formatted = self.format_code_line(line_num_first + k, code.as_str(), gutter);
            let vw = visual_len(formatted.as_str());
            let used: u128 = self.branch_indent_level as u128 * 3 + vw as u128 + 6;
            let pad = room_left(self.branch_display_config.terminal_size.0, used);
            let mut row = self.format_indent();
            push_char(&mut row, '│');
            push_char(&mut row, ' ');
            row.append(formatted.as_str());
            push_repeated(&mut row, ' ', pad);
            push_char(&mut row, ' ');
            push_char(&mut row, '│');
            assert(row@ =~= rows[k as int]);
            assert(rows.take(k + 1) =~= rows.take(k as int).push(row@));
            push_joined(&mut out, row.as_str(), k == 0, Ghost(rows.take(k as int)));
            k = k + 1;
        }
        assert(rows.take(n as int) =~= rows);
        out
    }
}

} // verus!
