//! Inline style tags: `<red|bold>text</red|bold>` expanded into SGR escape
//! sequences.
//!
//! Any `<` begins a tag, which runs to the next `>` (or to the end of the
//! text); there is no way to write a literal `<`. A closing tag's body is
//! ignored. Opening a tag pushes its body on a stack and emits the codes of
//! its `|`-separated style names; closing one pops the stack, emits a full
//! reset and replays the codes of every tag still open, bottom to top.
//! A close with nothing open emits nothing, and a text that leaves tags open
//! ends with one reset.

use vstd::prelude::*;
use crate::colors::{
    BG_BLACK, BG_BLUE, BG_CYAN, BG_GREEN, BG_MAGENTA, BG_RED, BG_WHITE, BG_YELLOW, FG_BLACK,
    FG_BLUE, FG_CYAN, FG_GREEN, FG_MAGENTA, FG_RED, FG_WHITE, FG_YELLOW, RESET_COLOR,
    STYLE_BLINKING, STYLE_BOLD, STYLE_CROSSED_OUT, STYLE_FADED, STYLE_ITALIC, STYLE_UNDERLINE,
};
use crate::width::{lemma_width_no_sequence, no_escape, no_sequence_start, visual_width, ESC};
use crate::text::{chars_of, push_char, same_chars, split_from, split_on};

verus! {

/// What `str::to_lowercase` makes of a character sequence.
pub uninterp spec fn lower_of(s: Seq<char>) -> Seq<char>;

/// Relies on `str::to_lowercase`: the lowercase form depends on the
/// characters alone.
#[verifier::external_body]
fn lowercase(s: &str) -> (r: String)
    ensures
        r@ == lower_of(s@),
{
    s.to_lowercase()
}

/// The code of a style name already in lowercase; unknown names have the
/// empty code.
pub open spec fn code_for(name: Seq<char>) -> Seq<char> {
    if name == "red"@ { FG_RED@ }
    else if name == "green"@ { FG_GREEN@ }
    else if name == "blue"@ { FG_BLUE@ }
    else if name == "yellow"@ { FG_YELLOW@ }
    else if name == "magenta"@ { FG_MAGENTA@ }
    else if name == "cyan"@ { FG_CYAN@ }
    else if name == "white"@ { FG_WHITE@ }
    else if name == "black"@ { FG_BLACK@ }
    else if name == "bold"@ { STYLE_BOLD@ }
    else if name == "italic"@ { STYLE_ITALIC@ }
    else if name == "underline"@ { STYLE_UNDERLINE@ }
    else if name == "faded"@ { STYLE_FADED@ }
    else if name == "blinking"@ { STYLE_BLINKING@ }
    else if name == "crossedout"@ { STYLE_CROSSED_OUT@ }
    else if name == "bg-red"@ { BG_RED@ }
    else if name == "bg-green"@ { BG_GREEN@ }
    else if name == "bg-blue"@ { BG_BLUE@ }
    else if name == "bg-yellow"@ { BG_YELLOW@ }
    else if name == "bg-magenta"@ { BG_MAGENTA@ }
    else if name == "bg-cyan"@ { BG_CYAN@ }
    else if name == "bg-white"@ { BG_WHITE@ }
    else if name == "bg-black"@ { BG_BLACK@ }
    else { Seq::empty() }
}

/// The code of a style name in any case.
pub open spec fn style_code(name: Seq<char>) -> Seq<char> {
    code_for(lower_of(name))
}

/// The code of the style name `lowered`, which is already in lowercase.
pub fn code_for_lowercase(lowered: &str) -> (r: &'static str)
    ensures
        r@ == code_for(lowered@),
{
    if same_chars(lowered, "red") { FG_RED }
    else if same_chars(lowered, "green") { FG_GREEN }
    else if same_chars(lowered, "blue") { FG_BLUE }
    else if same_chars(lowered, "yellow") { FG_YELLOW }
    else if same_chars(lowered, "magenta") { FG_MAGENTA }
    else if same_chars(lowered, "cyan") { FG_CYAN }
    else if same_chars(lowered, "white") { FG_WHITE }
    else if same_chars(lowered, "black") { FG_BLACK }
    else if same_chars(lowered, "bold") { STYLE_BOLD }
    else if same_chars(lowered, "italic") { STYLE_ITALIC }
    else if same_chars(lowered, "underline") { STYLE_UNDERLINE }
    else if same_chars(lowered, "faded") { STYLE_FADED }
    else if same_chars(lowered, "blinking") { STYLE_BLINKING }
    else if same_chars(lowered, "crossedout") { STYLE_CROSSED_OUT }
    else if same_chars(lowered, "bg-red") { BG_RED }
    else if same_chars(lowered, "bg-green") { BG_GREEN }
    else if same_chars(lowered, "bg-blue") { BG_BLUE }
    else if same_chars(lowered, "bg-yellow") { BG_YELLOW }
    else if same_chars(lowered, "bg-magenta") { BG_MAGENTA }
    else if same_chars(lowered, "bg-cyan") { BG_CYAN }
    else if same_chars(lowered, "bg-white") { BG_WHITE }
    else if same_chars(lowered, "bg-black") { BG_BLACK }
    else {
        proof {
            reveal_strlit("");
        }
        ""
    }
}

/// The code of a style name, matched without regard to case.
pub fn get_style_code(style: &str) -> (r: &'static str)
    ensures
        r@ == style_code(style@),
{
    let lowered = lowercase(style);
    code_for_lowercase(lowered.as_str())
}

/// The concatenated codes of a list of style names.
pub open spec fn names_codes(names: Seq<Seq<char>>) -> Seq<char>
    decreases names.len(),
{
    if names.len() == 0 {
        Seq::empty()
    } else {
        style_code(names[0]) + names_codes(names.drop_first())
    }
}

/// The codes a tag body stands for: those of its `|`-separated names, in order.
pub open spec fn body_codes(body: Seq<char>) -> Seq<char> {
    names_codes(split_on(body, '|'))
}

proof fn lemma_names_codes_step(name: Seq<char>, rest: Seq<Seq<char>>)
    ensures
        names_codes(seq![name] + rest) == style_code(name) + names_codes(rest),
{
    assert((seq![name] + rest).drop_first() =~= rest);
}

/// The codes of the tag body `body`.
pub fn tag_codes(body: &Vec<char>) -> (r: String)
    ensures
        r@ == body_codes(body@),
{
    let n = body.len();
    let mut r = String::new();
    let mut cur = String::new();
    let mut i: usize = 0;
    assert(body@.subrange(0, n as int) =~= body@);
    assert(cur@ =~= Seq::<char>::empty());
    while i < n
        invariant
            n == body@.len(),
            i <= n,
            r@ + names_codes(split_from(body@.subrange(i as int, n as int), '|', cur@))
                == body_codes(body@),
        decreases n - i,
    {
        let ghost rest = body@.subrange(i as int, n as int);
        assert(rest.skip(1) =~= body@.subrange(i + 1, n as int));
        let c = body[i];
        if c == '|' {
            proof {
                lemma_names_codes_step(cur@, split_from(rest.skip(1), '|', Seq::empty()));
            }
            let code = get_style_code(cur.as_str());
            r.append(code);
            cur = String::new();
            assert(cur@ =~= Seq::<char>::empty());
        } else {
            push_char(&mut cur, c);
        }
        i = i + 1;
    }
    assert(body@.subrange(n as int, n as int) =~= Seq::<char>::empty());
    proof {
        lemma_names_codes_step(cur@, Seq::empty());
        assert(seq![cur@] + Seq::<Seq<char>>::empty() =~= seq![cur@]);
    }
    let code = get_style_code(cur.as_str());
    r.append(code);
    r
}

/// One lexical element of tagged text.
pub enum Token {
    /// A character copied as it is.
    Plain(char),
    /// An opening tag with its body.
    Open(Seq<char>),
    /// A closing tag; its body does not matter.
    Close,
}

/// The number of characters of `t` before its first `>`.
pub open spec fn body_len(t: Seq<char>) -> nat
    decreases t.len(),
{
    if t.len() == 0 || t[0] == '>' {
        0
    } else {
        1 + body_len(t.skip(1))
    }
}

/// The tokens of `s`, read left to right. A `<` starts a tag, closing if a
/// `/` follows it; the tag's body runs to the next `>`, which is consumed, or
/// to the end of the text.
pub open spec fn tokens(s: Seq<char>) -> Seq<Token>
    decreases s.len(),
{
    if s.len() == 0 {
        Seq::empty()
    } else if s[0] == '<' {
        let closing = s.len() > 1 && s[1] == '/';
        let rest = if closing { s.skip(2) } else { s.skip(1) };
        let k = body_len(rest);
        let after = if k < rest.len() { rest.skip(k + 1 as int) } else { Seq::empty() };
        let tok = if closing { Token::Close } else { Token::Open(rest.take(k as int)) };
        seq![tok] + tokens(after)
    } else {
        seq![Token::Plain(s[0])] + tokens(s.skip(1))
    }
}

/// One unit of output.
pub enum Piece {
    /// A character of the text.
    Text(char),
    /// The codes of an opened tag body.
    Style(Seq<char>),
    /// The full reset code.
    Reset,
    /// The codes of every tag body on a stack, bottom to top.
    Restore(Seq<Seq<char>>),
}

/// The codes of every body on `stack`, bottom to top.
pub open spec fn replay_codes(stack: Seq<Seq<char>>) -> Seq<char>
    decreases stack.len(),
{
    if stack.len() == 0 {
        Seq::empty()
    } else {
        replay_codes(stack.drop_last()) + body_codes(stack.last())
    }
}

/// The characters a piece stands for.
pub open spec fn piece_text(p: Piece) -> Seq<char> {
    match p {
        Piece::Text(c) => seq![c],
        Piece::Style(b) => body_codes(b),
        Piece::Reset => RESET_COLOR@,
        Piece::Restore(st) => replay_codes(st),
    }
}

/// The characters a list of pieces stands for.
pub open spec fn render(ps: Seq<Piece>) -> Seq<char>
    decreases ps.len(),
{
    if ps.len() == 0 {
        Seq::empty()
    } else {
        piece_text(ps[0]) + render(ps.drop_first())
    }
}

/// The pieces emitted for `toks` with `stack` holding the bodies of the tags
/// still open.
pub open spec fn pieces(toks: Seq<Token>, stack: Seq<Seq<char>>) -> Seq<Piece>
    decreases toks.len(),
{
    if toks.len() == 0 {
        if stack.len() > 0 { seq![Piece::Reset] } else { Seq::empty() }
    } else {
        match toks[0] {
            Token::Plain(c) => seq![Piece::Text(c)] + pieces(toks.drop_first(), stack),
            Token::Open(b) => seq![Piece::Style(b)] + pieces(toks.drop_first(), stack.push(b)),
            Token::Close => if stack.len() > 0 {
                seq![Piece::Reset, Piece::Restore(stack.drop_last())] + pieces(
                    toks.drop_first(),
                    stack.drop_last(),
                )
            } else {
                pieces(toks.drop_first(), stack)
            },
        }
    }
}

/// The expansion of tagged text `s`.
pub open spec fn expand(s: Seq<char>) -> Seq<char> {
    render(pieces(tokens(s), Seq::empty()))
}

proof fn lemma_render_one(p: Piece, rest: Seq<Piece>)
    ensures
        render(seq![p] + rest) == piece_text(p) + render(rest),
{
    assert((seq![p] + rest).drop_first() =~= rest);
}

proof fn lemma_tokens_plain(s: Seq<char>, c: char)
    requires
        s.len() > 0,
        s[0] == c,
        c != '<',
    ensures
        tokens(s) == seq![Token::Plain(c)] + tokens(s.skip(1)),
        tokens(s).drop_first() == tokens(s.skip(1)),
        tokens(s)[0] == Token::Plain(c),
{
    assert((seq![Token::Plain(c)] + tokens(s.skip(1))).drop_first() =~= tokens(s.skip(1)));
}

proof fn lemma_body_len_bound(t: Seq<char>)
    ensures
        body_len(t) <= t.len(),
        forall|i: int| 0 <= i < body_len(t) ==> t[i] != '>',
        body_len(t) < t.len() ==> t[body_len(t) as int] == '>',
    decreases t.len(),
{
    if t.len() > 0 && t[0] != '>' {
        lemma_body_len_bound(t.skip(1));
        assert forall|i: int| 0 <= i < body_len(t) implies t[i] != '>' by {
            if i > 0 {
                assert(t[i] == t.skip(1)[i - 1]);
            }
        }
    }
}

/// Expands the style tags in `text` into SGR escape sequences.
pub fn process_style_tags(text: &str) -> (r: String)
    ensures
        r@ == expand(text@),
{
    let v = chars_of(text);
    let n = v.len();
    let mut result = String::new();
    // codes of each open tag, bottom to top
    let mut stack: Vec<String> = Vec::new();
    let ghost mut bodies: Seq<Seq<char>> = Seq::empty();
    let mut i: usize = 0;
    assert(v@.skip(0) =~= v@);
    assert(result@ =~= Seq::<char>::empty());
    while i < n
        invariant
            v@ == text@,
            n == v@.len(),
            i <= n,
            stack@.len() == bodies.len(),
            forall|k: int| 0 <= k < stack@.len() ==> (#[trigger] stack@[k])@ == body_codes(bodies[k]),
            expand(text@) == result@ + render(pieces(tokens(v@.skip(i as int)), bodies)),
        decreases n - i,
    {
        let ghost s = v@.skip(i as int);
        let ch = v[i];
        assert(s.len() > 0 && s[0] == ch);
        if ch == '<' {
            let closing = i + 1 < n && v[i + 1] == '/';
            let start: usize = if closing { i + 2 } else { i + 1 };
            let ghost rest = if closing { s.skip(2) } else { s.skip(1) };
            assert(rest =~= v@.skip(start as int));
            let mut tag: Vec<char> = Vec::new();
            let mut j: usize = start;
            while j < n && v[j] != '>'
                invariant
                    n == v@.len(),
                    start <= j <= n,
                    tag@ =~= v@.subrange(start as int, j as int),
                    body_len(v@.skip(start as int)) == (j - start) + body_len(v@.skip(j as int)),
                decreases n - j,
            {
                assert(v@.skip(j as int).skip(1) =~= v@.skip(j + 1));
                tag.push(v[j]);
                j = j + 1;
            }
            proof {
                lemma_body_len_bound(rest);
                if j < n {
                    assert(v@.skip(j as int)[0] == '>');
                } else {
                    assert(v@.skip(j as int).len() == 0);
                }
                assert(body_len(rest) == j - start);
                assert(tag@ =~= rest.take(body_len(rest) as int));
            }
            let next: usize = if j < n { j + 1 } else { n };
            proof {
                let after = if body_len(rest) < rest.len() {
                    rest.skip(body_len(rest) + 1 as int)
                } else {
                    Seq::<char>::empty()
                };
                assert(after =~= v@.skip(next as int));
                let tok = if closing { Token::Close } else { Token::Open(tag@) };
                assert(tokens(s) == seq![tok] + tokens(after));
                assert((seq![tok] + tokens(after)).drop_first() =~= tokens(after));
            }
            if closing {
                if stack.len() > 0 {
                    let ghost tail = tokens(v@.skip(next as int));
                    let ghost popped = bodies.drop_last();
                    stack.pop();
                    proof {
                        bodies = popped;
                        lemma_render_one(Piece::Reset, seq![Piece::Restore(popped)] + pieces(tail, popped));
                        lemma_render_one(Piece::Restore(popped), pieces(tail, popped));
                        assert(seq![Piece::Reset, Piece::Restore(popped)] + pieces(tail, popped)
                            =~= seq![Piece::Reset] + (seq![Piece::Restore(popped)] + pieces(tail, popped)));
                    }
                    let ghost before = result@;
                    result.append(RESET_COLOR);
                    let mut k: usize = 0;
                    assert(bodies.take(0) =~= Seq::<Seq<char>>::empty());
                    assert(result@ =~= before + RESET_COLOR@ + replay_codes(bodies.take(0)));
                    while k < stack.len()
                        invariant
                            stack@.len() == bodies.len(),
                            forall|m: int| 0 <= m < stack@.len() ==> (#[trigger] stack@[m])@ == body_codes(bodies[m]),
                            k <= stack@.len(),
                            result@ == before + RESET_COLOR@ + replay_codes(bodies.take(k as int)),
                        decreases stack.len() - k,
                    {
                        assert(bodies.take(k + 1).drop_last() =~= bodies.take(k as int));
                        result.append(stack[k].as_str());
                        k = k + 1;
                    }
                    assert(bodies.take(k as int) =~= bodies);
                    assert(result@ =~= before + (RESET_COLOR@ + replay_codes(bodies)));
                }
            } else {
                let codes = tag_codes(&tag);
                let ghost before = result@;
                result.append(codes.as_str());
                let ghost tail = tokens(v@.skip(next as int));
                proof {
                    lemma_render_one(Piece::Style(tag@), pieces(tail, bodies.push(tag@)));
                    bodies = bodies.push(tag@);
                }
                stack.push(codes);
                assert(result@ =~= before + body_codes(tag@));
            }
            i = next;
        } else {
            proof {
                lemma_tokens_plain(s, ch);
                assert(s.skip(1) =~= v@.skip(i + 1));
                lemma_render_one(Piece::Text(ch), pieces(tokens(s.skip(1)), bodies));
            }
            push_char(&mut result, ch);
            i = i + 1;
        }
    }
    assert(v@.skip(n as int) =~= Seq::<char>::empty());
    if stack.len() > 0 {
        proof {
            lemma_render_one(Piece::Reset, Seq::empty());
        }
        result.append(RESET_COLOR);
    }
    assert(result@ =~= expand(text@));
    result
}

/// The number of full resets among `ps`.
pub open spec fn count_resets(ps: Seq<Piece>) -> nat
    decreases ps.len(),
{
    if ps.len() == 0 {
        0
    } else {
        (if ps[0] is Reset { 1nat } else { 0nat }) + count_resets(ps.drop_first())
    }
}

/// The number of opening tags among `toks`.
pub open spec fn count_opens(toks: Seq<Token>) -> nat
    decreases toks.len(),
{
    if toks.len() == 0 {
        0
    } else {
        (if toks[0] is Open { 1nat } else { 0nat }) + count_opens(toks.drop_first())
    }
}

/// The number of closing tags among `toks`.
pub open spec fn count_closes(toks: Seq<Token>) -> nat
    decreases toks.len(),
{
    if toks.len() == 0 {
        0
    } else {
        (if toks[0] is Close { 1nat } else { 0nat }) + count_closes(toks.drop_first())
    }
}

/// Every closing tag of `toks` meets an open tag, `depth` of them being open
/// before the first token.
pub open spec fn closes_matched(toks: Seq<Token>, depth: nat) -> bool
    decreases toks.len(),
{
    if toks.len() == 0 {
        true
    } else {
        match toks[0] {
            Token::Plain(_) => closes_matched(toks.drop_first(), depth),
            Token::Open(_) => closes_matched(toks.drop_first(), depth + 1),
            Token::Close => depth > 0 && closes_matched(toks.drop_first(), (depth - 1) as nat),
        }
    }
}

/// Tagged text whose every closing tag closes a tag opened before it.
pub open spec fn well_formed(s: Seq<char>) -> bool {
    closes_matched(tokens(s), 0)
}

proof fn lemma_count_resets_front(front: Seq<Piece>, rest: Seq<Piece>)
    ensures
        count_resets(front + rest) == count_resets(front) + count_resets(rest),
    decreases front.len(),
{
    if front.len() == 0 {
        assert(front + rest =~= rest);
    } else {
        assert((front + rest).drop_first() =~= front.drop_first() + rest);
        lemma_count_resets_front(front.drop_first(), rest);
    }
}

proof fn lemma_resets_from(toks: Seq<Token>, stack: Seq<Seq<char>>)
    requires
        closes_matched(toks, stack.len()),
    ensures
        count_closes(toks) <= stack.len() + count_opens(toks),
        count_resets(pieces(toks, stack)) == count_closes(toks) + (if stack.len() + count_opens(
            toks,
        ) > count_closes(toks) {
            1nat
        } else {
            0nat
        }),
    decreases toks.len(),
{
    if toks.len() == 0 {
        if stack.len() > 0 {
            let one = seq![Piece::Reset];
            assert(one.len() == 1 && one[0] is Reset);
            assert(one.drop_first() =~= Seq::<Piece>::empty());
            assert(count_resets(Seq::<Piece>::empty()) == 0);
            assert(count_resets(one) == 1);
        }
    } else {
        let rest = toks.drop_first();
        match toks[0] {
            Token::Plain(c) => {
                lemma_resets_from(rest, stack);
                let front = seq![Piece::Text(c)];
                lemma_count_resets_front(front, pieces(rest, stack));
                assert(front.drop_first() =~= Seq::<Piece>::empty());
                assert(count_resets(Seq::<Piece>::empty()) == 0);
                assert(count_resets(front) == 0);
            },
            Token::Open(b) => {
                lemma_resets_from(rest, stack.push(b));
                let front = seq![Piece::Style(b)];
                lemma_count_resets_front(front, pieces(rest, stack.push(b)));
                assert(front.drop_first() =~= Seq::<Piece>::empty());
                assert(count_resets(Seq::<Piece>::empty()) == 0);
                assert(count_resets(front) == 0);
            },
            Token::Close => {
                let popped = stack.drop_last();
                lemma_resets_from(rest, popped);
                let front = seq![Piece::Reset, Piece::Restore(popped)];
                lemma_count_resets_front(front, pieces(rest, popped));
                let second = seq![Piece::Restore(popped)];
                assert(front.drop_first() =~= second);
                assert(second.drop_first() =~= Seq::<Piece>::empty());
                assert(count_resets(Seq::<Piece>::empty()) == 0);
                assert(count_resets(second) == 0);
                assert(count_resets(front) == 1);
            },
        }
    }
}

/// In well-formed tagged text the expansion emits one full reset per closing
/// tag, plus one more at the end exactly when tags are left open.
pub proof fn lemma_reset_count(s: Seq<char>)
    requires
        well_formed(s),
    ensures
        count_resets(pieces(tokens(s), Seq::empty())) == count_closes(tokens(s)) + (if count_opens(
            tokens(s),
        ) > count_closes(tokens(s)) {
            1nat
        } else {
            0nat
        }),
{
    lemma_resets_from(tokens(s), Seq::empty());
}

/// Text without `<` holds no tag and expands to itself.
pub proof fn lemma_expand_untagged(s: Seq<char>)
    requires
        forall|i: int| 0 <= i < s.len() ==> s[i] != '<',
    ensures
        expand(s) == s,
    decreases s.len(),
{
    if s.len() == 0 {
        assert(expand(s) =~= s);
    } else {
        let c = s[0];
        let rest = s.skip(1);
        lemma_tokens_plain(s, c);
        lemma_expand_untagged(rest);
        let tail = pieces(tokens(rest), Seq::empty());
        assert(pieces(tokens(s), Seq::empty()) == seq![Piece::Text(c)] + tail);
        lemma_render_one(Piece::Text(c), tail);
        assert(expand(s) =~= s);
    }
}

/// Untagged text in which no `ESC` starts an escape sequence keeps its
/// length as visual width through the expansion.
pub proof fn lemma_untagged_width(s: Seq<char>)
    requires
        forall|i: int| 0 <= i < s.len() ==> s[i] != '<',
        no_sequence_start(s),
    ensures
        visual_width(expand(s)) == s.len(),
{
    lemma_expand_untagged(s);
    lemma_width_no_sequence(s);
}

proof fn lemma_body_len_of(body: Seq<char>, rest: Seq<char>)
    requires
        forall|i: int| 0 <= i < body.len() ==> body[i] != '>',
    ensures
        body_len(body + seq!['>'] + rest) == body.len(),
    decreases body.len(),
{
    let t = body + seq!['>'] + rest;
    if body.len() == 0 {
        assert(t[0] == '>');
    } else {
        assert(t.skip(1) =~= body.skip(1) + seq!['>'] + rest);
        lemma_body_len_of(body.skip(1), rest);
    }
}

/// A closing tag with no tag open is dropped with no output.
pub proof fn lemma_close_unopened(body: Seq<char>, rest: Seq<char>)
    requires
        forall|i: int| 0 <= i < body.len() ==> body[i] != '>',
    ensures
        expand(seq!['<', '/'] + body + seq!['>'] + rest) == expand(rest),
{
    let s = seq!['<', '/'] + body + seq!['>'] + rest;
    let t = body + seq!['>'] + rest;
    assert(s.skip(2) =~= t);
    lemma_body_len_of(body, rest);
    assert(t.skip(body.len() + 1 as int) =~= rest);
    assert(tokens(s) == seq![Token::Close] + tokens(rest));
    assert((seq![Token::Close] + tokens(rest)).drop_first() =~= tokens(rest));
}

/// The full reset code, character by character.
pub open spec fn reset_seq() -> Seq<char> {
    seq![ESC, '[', '0', 'm']
}

/// The number of full reset codes in `s`, found left to right.
pub open spec fn reset_codes_in(s: Seq<char>) -> nat
    decreases s.len(),
{
    if s.len() == 0 {
        0
    } else if s.len() >= 4 && s.take(4) == reset_seq() {
        1 + reset_codes_in(s.skip(4))
    } else {
        reset_codes_in(s.skip(1))
    }
}

/// No `ESC` stands among the last three characters of `s`, so no reset code
/// can begin in `s` and end after it.
pub open spec fn ends_clean(s: Seq<char>) -> bool {
    forall|i: int| 0 <= i < s.len() && s.len() - 3 <= i ==> s[i] != ESC
}

proof fn lemma_clean_concat(x: Seq<char>, y: Seq<char>)
    requires
        ends_clean(x),
        ends_clean(y),
    ensures
        ends_clean(x + y),
{
    assert forall|i: int| 0 <= i < (x + y).len() && (x + y).len() - 3 <= i implies (x + y)[i]
        != ESC by {
        if i >= x.len() {
            assert((x + y)[i] == y[i - x.len()]);
        } else {
            assert((x + y)[i] == x[i]);
        }
    }
}

proof fn lemma_reset_codes_concat(a: Seq<char>, b: Seq<char>)
    requires
        ends_clean(a),
    ensures
        reset_codes_in(a + b) == reset_codes_in(a) + reset_codes_in(b),
    decreases a.len(),
{
    if a.len() == 0 {
        assert(a + b =~= b);
    } else if a.len() >= 4 && a.take(4) == reset_seq() {
        assert((a + b).take(4) =~= a.take(4));
        assert((a + b).skip(4) =~= a.skip(4) + b);
        lemma_reset_codes_concat(a.skip(4), b);
    } else {
        if (a + b).len() >= 4 && (a + b).take(4) == reset_seq() {
            if a.len() >= 4 {
                assert((a + b).take(4) =~= a.take(4));
            } else {
                assert((a + b).take(4)[0] == a[0]);
            }
        }
        assert((a + b).skip(1) =~= a.skip(1) + b);
        lemma_reset_codes_concat(a.skip(1), b);
    }
}

proof fn lemma_no_reset_without_escape(s: Seq<char>)
    requires
        forall|i: int| 0 <= i < s.len() ==> s[i] != ESC,
    ensures
        reset_codes_in(s) == 0,
    decreases s.len(),
{
    if s.len() > 0 {
        if s.len() >= 4 {
            assert(s.take(4)[0] == s[0]);
        }
        lemma_no_reset_without_escape(s.skip(1));
    }
}

/// An SGR code other than the reset holds no reset code and ends clean.
proof fn lemma_plain_code(c: Seq<char>)
    requires
        c.len() >= 4,
        c[0] == ESC,
        c[2] != '0',
        forall|i: int| 1 <= i < c.len() ==> c[i] != ESC,
    ensures
        reset_codes_in(c) == 0,
        ends_clean(c),
{
    assert(c.take(4)[2] == c[2]);
    assert(reset_seq()[2] == '0');
    assert(c.take(4) != reset_seq());
    assert forall|i: int| 0 <= i < c.skip(1).len() implies c.skip(1)[i] != ESC by {
        assert(c.skip(1)[i] == c[i + 1]);
    }
    lemma_no_reset_without_escape(c.skip(1));
}

proof fn lemma_code_clean(name: Seq<char>)
    ensures
        reset_codes_in(code_for(name)) == 0,
        ends_clean(code_for(name)),
{
    reveal_strlit("\x1b[31m");
    reveal_strlit("\x1b[32m");
    reveal_strlit("\x1b[34m");
    reveal_strlit("\x1b[33m");
    reveal_strlit("\x1b[35m");
    reveal_strlit("\x1b[36m");
    reveal_strlit("\x1b[37m");
    reveal_strlit("\x1b[30m");
    reveal_strlit("\x1b[1m");
    reveal_strlit("\x1b[3m");
    reveal_strlit("\x1b[4m");
    reveal_strlit("\x1b[2m");
    reveal_strlit("\x1b[5m");
    reveal_strlit("\x1b[9m");
    reveal_strlit("\x1b[41m");
    reveal_strlit("\x1b[42m");
    reveal_strlit("\x1b[44m");
    reveal_strlit("\x1b[43m");
    reveal_strlit("\x1b[45m");
    reveal_strlit("\x1b[46m");
    reveal_strlit("\x1b[47m");
    reveal_strlit("\x1b[40m");
    let c = code_for(name);
    if c.len() > 0 {
        lemma_plain_code(c);
    }
}

proof fn lemma_names_codes_clean(names: Seq<Seq<char>>)
    ensures
        reset_codes_in(names_codes(names)) == 0,
        ends_clean(names_codes(names)),
    decreases names.len(),
{
    if names.len() > 0 {
        let head = style_code(names[0]);
        let tail = names_codes(names.drop_first());
        lemma_code_clean(lower_of(names[0]));
        lemma_names_codes_clean(names.drop_first());
        lemma_reset_codes_concat(head, tail);
        lemma_clean_concat(head, tail);
    }
}

proof fn lemma_replay_clean(stack: Seq<Seq<char>>)
    ensures
        reset_codes_in(replay_codes(stack)) == 0,
        ends_clean(replay_codes(stack)),
    decreases stack.len(),
{
    if stack.len() > 0 {
        let front = replay_codes(stack.drop_last());
        let last = body_codes(stack.last());
        lemma_replay_clean(stack.drop_last());
        lemma_names_codes_clean(split_on(stack.last(), '|'));
        lemma_reset_codes_concat(front, last);
        lemma_clean_concat(front, last);
    }
}

/// No text piece of `ps` is an `ESC`.
pub open spec fn text_without_escape(ps: Seq<Piece>) -> bool {
    forall|k: int| 0 <= k < ps.len() ==> !(#[trigger] ps[k] matches Piece::Text(c) && c == ESC)
}

proof fn lemma_render_resets(ps: Seq<Piece>)
    requires
        text_without_escape(ps),
    ensures
        reset_codes_in(render(ps)) == count_resets(ps),
        ends_clean(render(ps)),
    decreases ps.len(),
{
    if ps.len() > 0 {
        let head = piece_text(ps[0]);
        let tail = render(ps.drop_first());
        assert(text_without_escape(ps.drop_first())) by {
            assert forall|k: int| 0 <= k < ps.drop_first().len() implies !(
            #[trigger] ps.drop_first()[k] matches Piece::Text(c) && c == ESC) by {
                assert(ps.drop_first()[k] == ps[k + 1]);
            }
        }
        lemma_render_resets(ps.drop_first());
        match ps[0] {
            Piece::Text(c) => {
                assert(!(ps[0] matches Piece::Text(c) && c == ESC));
                lemma_no_reset_without_escape(head);
            },
            Piece::Style(b) => {
                lemma_names_codes_clean(split_on(b, '|'));
            },
            Piece::Reset => {
                reveal_strlit("\x1b[0m");
                assert(head =~= reset_seq());
                assert(head.take(4) =~= head);
                assert(head.skip(4) =~= Seq::<char>::empty());
                assert(reset_codes_in(Seq::<char>::empty()) == 0);
                assert(reset_codes_in(head) == 1);
            },
            Piece::Restore(st) => {
                lemma_replay_clean(st);
            },
        }
        lemma_reset_codes_concat(head, tail);
        lemma_clean_concat(head, tail);
        assert(render(ps) == head + tail);
        assert(reset_codes_in(head) == (if ps[0] is Reset { 1nat } else { 0nat }));
    }
}

proof fn lemma_tokens_without_escape(s: Seq<char>)
    requires
        no_escape(s),
    ensures
        forall|k: int| 0 <= k < tokens(s).len() ==> !(#[trigger] tokens(s)[k] matches Token::Plain(
            c,
        ) && c == ESC),
    decreases s.len(),
{
    if s.len() > 0 {
        if s[0] == '<' {
            let closing = s.len() > 1 && s[1] == '/';
            let rest = if closing { s.skip(2) } else { s.skip(1) };
            let k = body_len(rest);
            let after = if k < rest.len() { rest.skip(k + 1 as int) } else { Seq::empty() };
            let tok = if closing { Token::Close } else { Token::Open(rest.take(k as int)) };
            assert(no_escape(after)) by {
                if k < rest.len() {
                    assert forall|i: int| 0 <= i < after.len() implies after[i] != ESC by {
                        if closing {
                            assert(after[i] == s[i + k + 3]);
                        } else {
                            assert(after[i] == s[i + k + 2]);
                        }
                    }
                }
            }
            lemma_tokens_without_escape(after);
            assert(tokens(s) == seq![tok] + tokens(after));
            assert forall|j: int| 0 <= j < tokens(s).len() implies !(
            #[trigger] tokens(s)[j] matches Token::Plain(c) && c == ESC) by {
                if j > 0 {
                    assert(tokens(s)[j] == tokens(after)[j - 1]);
                }
            }
        } else {
            let c = s[0];
            lemma_tokens_plain(s, c);
            assert(no_escape(s.skip(1))) by {
                assert forall|i: int| 0 <= i < s.skip(1).len() implies s.skip(1)[i] != ESC by {
                    assert(s.skip(1)[i] == s[i + 1]);
                }
            }
            lemma_tokens_without_escape(s.skip(1));
            assert forall|j: int| 0 <= j < tokens(s).len() implies !(
            #[trigger] tokens(s)[j] matches Token::Plain(c) && c == ESC) by {
                if j > 0 {
                    assert(tokens(s)[j] == tokens(s.skip(1))[j - 1]);
                }
            }
        }
    }
}

proof fn lemma_pieces_without_escape(toks: Seq<Token>, stack: Seq<Seq<char>>)
    requires
        forall|k: int| 0 <= k < toks.len() ==> !(#[trigger] toks[k] matches Token::Plain(c) && c
            == ESC),
    ensures
        text_without_escape(pieces(toks, stack)),
    decreases toks.len(),
{
    if toks.len() > 0 {
        let rest = toks.drop_first();
        assert forall|k: int| 0 <= k < rest.len() implies !(#[trigger] rest[k] matches Token::Plain(
            c,
        ) && c == ESC) by {
            assert(rest[k] == toks[k + 1]);
        }
        let (front, next) = match toks[0] {
            Token::Plain(c) => (seq![Piece::Text(c)], stack),
            Token::Open(b) => (seq![Piece::Style(b)], stack.push(b)),
            Token::Close => if stack.len() > 0 {
                (seq![Piece::Reset, Piece::Restore(stack.drop_last())], stack.drop_last())
            } else {
                (Seq::<Piece>::empty(), stack)
            },
        };
        lemma_pieces_without_escape(rest, next);
        assert(!(toks[0] matches Token::Plain(c) && c == ESC));
        assert(pieces(toks, stack) == front + pieces(rest, next));
        let all = front + pieces(rest, next);
        assert forall|k: int| 0 <= k < all.len() implies !(#[trigger] all[k] matches Piece::Text(c)
            && c == ESC) by {
            if k >= front.len() {
                assert(all[k] == pieces(rest, next)[k - front.len()]);
            }
        }
    } else {
        let ps = pieces(toks, stack);
        assert forall|k: int| 0 <= k < ps.len() implies !(#[trigger] ps[k] matches Piece::Text(c)
            && c == ESC) by {
            assert(ps[k] == Piece::Reset);
        }
    }
}

/// In well-formed tagged text whose own characters hold no `ESC`, the
/// expansion holds exactly one full reset code per closing tag, plus one
/// more at the end exactly when tags are left open.
pub proof fn lemma_reset_codes_emitted(s: Seq<char>)
    requires
        well_formed(s),
        no_escape(s),
    ensures
        reset_codes_in(expand(s)) == count_closes(tokens(s)) + (if count_opens(tokens(s))
            > count_closes(tokens(s)) {
            1nat
        } else {
            0nat
        }),
{
    lemma_reset_count(s);
    lemma_tokens_without_escape(s);
    lemma_pieces_without_escape(tokens(s), Seq::empty());
    lemma_render_resets(pieces(tokens(s), Seq::empty()));
}

} // verus!
