//! The text of the messages on the command pipe. A request is one line
//! holding a visual command's words as they are typed on the command line;
//! a reply is one line, `ok`, or `error` followed by the error's code and
//! message.
use vstd::prelude::*;

use crate::cli::{
    decimal_text, digit_char, lemma_decimal_text_reads_back, lemma_i32_text_round_trip,
    parse_visual_command, result_view, signed_text, visual_command_outcome, CliCommand,
    CliCommandView, CommandError,
};
use crate::text::dec_digit_value;

verus! {

/// Whether a character separates the words of a request.
pub open spec fn is_word_space(c: char) -> bool {
    c == ' ' || c == '\t' || c == '\n' || c == '\r'
}

/// The words of a text: its longest runs of characters that are not word
/// spaces, in order.
pub open spec fn words_of(s: Seq<char>) -> Seq<Seq<char>>
    decreases s.len(),
{
    if s.len() == 0 {
        Seq::empty()
    } else {
        let before = words_of(s.drop_last());
        let c = s.last();
        if is_word_space(c) {
            before
        } else if s.len() >= 2 && !is_word_space(s[s.len() - 2]) {
            before.update(before.len() - 1, before.last().push(c))
        } else {
            before.push(seq![c])
        }
    }
}

/// The characters of each string.
pub open spec fn strings_view(v: Seq<String>) -> Seq<Seq<char>> {
    v.map_values(|s: String| s@)
}

/// The words of a text, split at spaces, tabs and line ends.
pub fn split_words(text: &str) -> (words: Vec<String>)
    ensures
        strings_view(words@) == words_of(text@),
{
    let n = text.unicode_len();
    let ghost s = text@;
    let mut words: Vec<String> = Vec::new();
    let mut in_word = false;
    let mut start: usize = 0;
    let mut i: usize = 0;
    while i < n
        invariant
            n == s.len(),
            s == text@,
            i <= n,
            start <= i,
            !in_word ==> strings_view(words@) == words_of(s.take(i as int)),
            !in_word ==> (i == 0 || is_word_space(s[i - 1])),
            in_word ==> start < i && !is_word_space(s[i - 1]),
            in_word ==> strings_view(words@).push(s.subrange(start as int, i as int)) == words_of(
                s.take(i as int),
            ),
            in_word ==> (start == 0 || is_word_space(s[start - 1])),
        decreases n - i,
    {
        let c = text.get_char(i);
        let ghost t = s.take(i + 1);
        assert(t.drop_last() =~= s.take(i as int));
        assert(t.last() == c);
        let space = c == ' ' || c == '\t' || c == '\n' || c == '\r';
        if space {
            if in_word {
                let word = String::from_str(text.substring_char(start, i));
                let ghost before = words@;
                words.push(word);
                proof {
                    assert(strings_view(words@) =~= strings_view(before).push(word@));
                }
                in_word = false;
            }
        } else {
            if in_word {
                proof {
                    let prev = words_of(s.take(i as int));
                    assert(t[t.len() - 2] == s[i - 1]);
                    assert(prev.last() == s.subrange(start as int, i as int));
                    assert(s.subrange(start as int, i + 1) =~= s.subrange(start as int, i as int).push(c));
                    assert(strings_view(words@).push(s.subrange(start as int, i + 1)) =~= prev.update(
                        prev.len() - 1,
                        prev.last().push(c),
                    ));
                }
            } else {
                proof {
                    if i > 0 {
                        assert(t[t.len() - 2] == s[i - 1]);
                    }
                    assert(s.subrange(i as int, i + 1) =~= seq![c]);
                }
                start = i;
                in_word = true;
            }
        }
        i = i + 1;
    }
    if in_word {
        let word = String::from_str(text.substring_char(start, n));
        let ghost before = words@;
        words.push(word);
        proof {
            assert(strings_view(words@) =~= strings_view(before).push(word@));
        }
    }
    assert(s.take(n as int) =~= s);
    words
}

/// Reads a request line: its words, read as a visual command with the
/// command-line grammar.
pub fn decode_request(line: &str) -> (r: Result<CliCommand, CommandError>)
    ensures
        result_view(r) == visual_command_outcome(words_of(line@)),
{
    let words = split_words(line);
    assert(words@.map_values(|s: String| s@) == strings_view(words@));
    parse_visual_command(words.as_slice())
}

/// The text of one decimal digit.
fn digit_str(d: u32) -> (s: &'static str)
    requires
        d < 10,
    ensures
        s@ == seq![digit_char(d as nat)],
{
    proof {
        reveal_strlit("0");
        reveal_strlit("1");
        reveal_strlit("2");
        reveal_strlit("3");
        reveal_strlit("4");
        reveal_strlit("5");
        reveal_strlit("6");
        reveal_strlit("7");
        reveal_strlit("8");
        reveal_strlit("9");
    }
    if d == 0 {
        "0"
    } else if d == 1 {
        "1"
    } else if d == 2 {
        "2"
    } else if d == 3 {
        "3"
    } else if d == 4 {
        "4"
    } else if d == 5 {
        "5"
    } else if d == 6 {
        "6"
    } else if d == 7 {
        "7"
    } else if d == 8 {
        "8"
    } else {
        "9"
    }
}

/// Appends the decimal digits of `n`.
fn append_decimal(text: &mut String, n: u32)
    ensures
        final(text)@ == old(text)@ + decimal_text(n as nat),
    decreases n,
{
    if n >= 10 {
        append_decimal(text, n / 10);
    }
    text.append(digit_str(n % 10));
    proof {
        if n >= 10 {
            assert(old(text)@ + decimal_text((n / 10) as nat) + seq![digit_char((n % 10) as nat)]
                =~= old(text)@ + decimal_text(n as nat));
        } else {
            assert(decimal_text(n as nat) == seq![digit_char(n as nat)]);
        }
    }
}

/// Appends the decimal text of `v`, a minus sign first when it is negative.
fn append_signed(text: &mut String, v: i32)
    ensures
        final(text)@ == old(text)@ + signed_text(v as int),
{
    if v < 0 {
        proof {
            reveal_strlit("-");
        }
        text.append("-");
        let m: u32 = (-(v as i64)) as u32;
        append_decimal(text, m);
        assert(old(text)@ + seq!['-'] + decimal_text(m as nat) =~= old(text)@ + signed_text(v as int));
    } else {
        append_decimal(text, v as u32);
    }
}

/// The request line of a command: its words as typed on the command line,
/// separated by single spaces, then a line end.
pub open spec fn request_text(c: CliCommandView) -> Seq<char> {
    match c {
        CliCommandView::Rect { x1, y1, x2, y2 } => "rect "@ + signed_text(x1 as int) + " "@
            + signed_text(y1 as int) + " "@ + signed_text(x2 as int) + " "@ + signed_text(y2 as int)
            + "\n"@,
        CliCommandView::Magnifier { x, y, zoom } => "magnifier "@ + signed_text(x as int) + " "@
            + signed_text(y as int) + match zoom {
            Some(z) => " "@ + z,
            None => Seq::empty(),
        } + "\n"@,
        CliCommandView::Clear => "clear\n"@,
    }
}

/// The request line for a command.
pub fn encode_request(command: &CliCommand) -> (text: String)
    ensures
        text@ == request_text(command@),
{
    match command {
        CliCommand::Rect { x1, y1, x2, y2 } => {
            let mut text = String::from_str("rect ");
            append_signed(&mut text, *x1);
            text.append(" ");
            append_signed(&mut text, *y1);
            text.append(" ");
            append_signed(&mut text, *x2);
            text.append(" ");
            append_signed(&mut text, *y2);
            text.append("\n");
            text
        },
        CliCommand::Magnifier { x, y, zoom } => {
            let mut text = String::from_str("magnifier ");
            append_signed(&mut text, *x);
            text.append(" ");
            append_signed(&mut text, *y);
            let ghost before = text@;
            match zoom {
                Some(z) => {
                    text.append(" ");
                    text.append(z.as_str());
                    assert(text@ =~= before + (" "@ + z@));
                },
                None => {
                    assert(text@ =~= before + Seq::<char>::empty());
                },
            }
            text.append("\n");
            text
        },
        CliCommand::Clear => String::from_str("clear\n"),
    }
}

/// The reply line for a result: `ok`, or `error`, the error's code and its
/// message, separated by single spaces; then a line end.
pub open spec fn response_text(r: Result<(), (Seq<char>, Seq<char>)>) -> Seq<char> {
    match r {
        Ok(()) => "ok\n"@,
        Err((code, message)) => "error "@ + code + " "@ + message + "\n"@,
    }
}

/// The reply line for a result.
pub fn encode_response(result: &Result<(), CommandError>) -> (text: String)
    ensures
        text@ == response_text(result_view(*result)),
{
    match result {
        Ok(()) => String::from_str("ok\n"),
        Err(e) => {
            let mut text = String::from_str("error ");
            text.append(e.code.as_str());
            text.append(" ");
            text.append(e.message.as_str());
            text.append("\n");
            text
        },
    }
}

/// A text without its trailing carriage returns and line feeds.
pub open spec fn trim_line_end(s: Seq<char>) -> Seq<char>
    decreases s.len(),
{
    if s.len() > 0 && (s.last() == '\r' || s.last() == '\n') {
        trim_line_end(s.drop_last())
    } else {
        s
    }
}

/// The position of the first space in a text, or its length when it has
/// none.
pub open spec fn first_space(s: Seq<char>) -> int
    decreases s.len(),
{
    if s.len() == 0 {
        0
    } else if s[0] == ' ' {
        0
    } else {
        1 + first_space(s.drop_first())
    }
}

/// The error for a reply that is neither `ok` nor an error line.
pub open spec fn unrecognized_response() -> (Seq<char>, Seq<char>) {
    ("invalid_response"@, "unrecognized response"@)
}

/// The result that a reply line gives: `ok` is success; `error ` followed by
/// a code, and by a space and a message if there is one, is that error;
/// anything else is an unrecognized reply. Line ends are ignored.
pub open spec fn response_outcome(s: Seq<char>) -> Result<(), (Seq<char>, Seq<char>)> {
    let t = trim_line_end(s);
    if t == "ok"@ {
        Ok(())
    } else if t.len() >= 6 && t.take(6) == "error "@ {
        let rest = t.skip(6);
        let k = first_space(rest);
        if k < rest.len() {
            Err((rest.take(k), rest.skip(k + 1)))
        } else {
            Err((rest, Seq::empty()))
        }
    } else {
        Err(unrecognized_response())
    }
}

proof fn lemma_first_space(s: Seq<char>)
    ensures
        0 <= first_space(s) <= s.len(),
        forall|i: int| 0 <= i < first_space(s) ==> s[i] != ' ',
        first_space(s) < s.len() ==> s[first_space(s)] == ' ',
    decreases s.len(),
{
    if s.len() > 0 && s[0] != ' ' {
        lemma_first_space(s.drop_first());
        assert forall|i: int| 0 <= i < first_space(s) implies s[i] != ' ' by {
            if i > 0 {
                assert(s[i] == s.drop_first()[i - 1]);
            }
        }
    }
}

/// A text's trimmed form is a prefix of it, found by dropping line ends one
/// at a time from the back.
proof fn lemma_trim_prefix(s: Seq<char>, m: int)
    requires
        0 <= m <= s.len(),
        forall|i: int| m <= i < s.len() ==> s[i] == '\r' || s[i] == '\n',
        m == 0 || (s[m - 1] != '\r' && s[m - 1] != '\n'),
    ensures
        trim_line_end(s) == s.take(m),
    decreases s.len(),
{
    if s.len() > m {
        lemma_trim_prefix(s.drop_last(), m);
        assert(s.drop_last().take(m) =~= s.take(m));
    } else {
        assert(s.take(m) =~= s);
    }
}

/// Reads a reply line.
pub fn decode_response(line: &str) -> (r: Result<(), CommandError>)
    ensures
        result_view(r) == response_outcome(line@),
{
    let ghost s = line@;
    let n = line.unicode_len();
    let mut m: usize = n;
    while m > 0 && (line.get_char(m - 1) == '\r' || line.get_char(m - 1) == '\n')
        invariant
            n == s.len(),
            s == line@,
            m <= n,
            forall|i: int| m <= i < n ==> s[i] == '\r' || s[i] == '\n',
        decreases m,
    {
        m = m - 1;
    }
    proof {
        lemma_trim_prefix(s, m as int);
        reveal_strlit("ok");
        reveal_strlit("error ");
    }
    let ghost t = s.take(m as int);
    if m == 2 && line.get_char(0) == 'o' && line.get_char(1) == 'k' {
        assert(t =~= "ok"@);
        return Ok(());
    }
    assert(t != "ok"@) by {
        if t == "ok"@ {
            assert(t.len() == 2);
            assert(t[0] == s[0]);
            assert(t[1] == s[1]);
        }
    }
    if m >= 6 && line.get_char(0) == 'e' && line.get_char(1) == 'r' && line.get_char(2) == 'r'
        && line.get_char(3) == 'o' && line.get_char(4) == 'r' && line.get_char(5) == ' ' {
        assert(t.take(6) =~= "error "@);
        let ghost rest = t.skip(6);
        proof {
            lemma_first_space(rest);
        }
        let mut k: usize = 6;
        while k < m && line.get_char(k) != ' '
            invariant
                6 <= k <= m,
                m <= n,
                n == s.len(),
                s == line@,
                t == s.take(m as int),
                rest == t.skip(6),
                forall|i: int| 6 <= i < k ==> s[i] != ' ',
            decreases m - k,
        {
            k = k + 1;
        }
        proof {
            assert(first_space(rest) == k - 6) by {
                if first_space(rest) < k - 6 {
                    assert(rest[first_space(rest)] == s[first_space(rest) + 6]);
                } else if first_space(rest) > k - 6 {
                    assert(rest[k - 6] == s[k as int]);
                }
            }
        }
        if k < m {
            let code = line.substring_char(6, k);
            let message = line.substring_char(k + 1, m);
            assert(code@ =~= rest.take(k - 6));
            assert(message@ =~= rest.skip(k - 6 + 1));
            return Err(CommandError::new(code, message));
        } else {
            let code = line.substring_char(6, m);
            assert(code@ =~= rest);
            proof {
                reveal_strlit("");
                assert(""@ =~= Seq::<char>::empty());
                assert(rest.len() == k - 6);
            }
            return Err(CommandError::new(code, ""));
        }
    }
    assert(!(t.len() >= 6 && t.take(6) == "error "@)) by {
        if t.len() >= 6 && t.take(6) == "error "@ {
            assert(t.take(6)[0] == s[0]);
            assert(t.take(6)[1] == s[1]);
            assert(t.take(6)[2] == s[2]);
            assert(t.take(6)[3] == s[3]);
            assert(t.take(6)[4] == s[4]);
            assert(t.take(6)[5] == s[5]);
        }
    }
    Err(CommandError::new("invalid_response", "unrecognized response"))
}

/// Whether a text holds no word space.
pub open spec fn is_word(s: Seq<char>) -> bool {
    forall|i: int| 0 <= i < s.len() ==> !is_word_space(#[trigger] s[i])
}

/// A text that ends in a word character has at least one word.
proof fn lemma_words_nonempty(s: Seq<char>)
    requires
        s.len() > 0,
        !is_word_space(s.last()),
    ensures
        words_of(s).len() > 0,
    decreases s.len(),
{
    if s.len() >= 2 && !is_word_space(s[s.len() - 2]) {
        let p = s.drop_last();
        assert(p.last() == s[s.len() - 2]);
        lemma_words_nonempty(p);
    }
}

/// The words of two texts joined, the first ending at a word space (or
/// empty), are the words of each.
proof fn lemma_words_concat(x: Seq<char>, y: Seq<char>)
    requires
        x.len() == 0 || is_word_space(x.last()),
    ensures
        words_of(x + y) == words_of(x) + words_of(y),
    decreases y.len(),
{
    if y.len() == 0 {
        assert(x + y =~= x);
        assert(words_of(x) + words_of(y) =~= words_of(x));
    } else {
        let yp = y.drop_last();
        let c = y.last();
        lemma_words_concat(x, yp);
        let xy = x + y;
        assert(xy.drop_last() =~= x + yp);
        assert(xy.last() == c);
        let wx = words_of(x);
        let wyp = words_of(yp);
        if is_word_space(c) {
            assert(words_of(x) + words_of(y) =~= wx + wyp);
        } else if xy.len() >= 2 && !is_word_space(xy[xy.len() - 2]) {
            if yp.len() == 0 {
                assert(xy[xy.len() - 2] == x.last());
            }
            assert(yp.len() > 0);
            assert(xy[xy.len() - 2] == yp.last());
            assert(y[y.len() - 2] == yp.last());
            assert(y.drop_last() =~= yp);
            lemma_words_nonempty(yp);
            assert((wx + wyp).update((wx + wyp).len() - 1, (wx + wyp).last().push(c)) =~= wx
                + wyp.update(wyp.len() - 1, wyp.last().push(c)));
        } else {
            assert(y.drop_last() =~= yp);
            if y.len() >= 2 {
                assert(y[y.len() - 2] == xy[xy.len() - 2]);
            }
            assert((wx + wyp).push(seq![c]) =~= wx + wyp.push(seq![c]));
        }
    }
}

/// A non-empty word followed by one word space is that single word.
proof fn lemma_word_then_space(w: Seq<char>, sp: char)
    requires
        w.len() > 0,
        is_word(w),
        is_word_space(sp),
    ensures
        words_of(w.push(sp)) == seq![w],
    decreases w.len(),
{
    assert(w.push(sp).drop_last() =~= w);
    lemma_single_word(w);
}

/// A non-empty word on its own is one word.
proof fn lemma_single_word(w: Seq<char>)
    requires
        w.len() > 0,
        is_word(w),
    ensures
        words_of(w) == seq![w],
    decreases w.len(),
{
    if w.len() == 1 {
        assert(w.drop_last() =~= Seq::<char>::empty());
        assert(words_of(w.drop_last()) =~= Seq::<Seq<char>>::empty());
        assert(!is_word_space(w[0]));
        assert(w.last() == w[0]);
        assert(words_of(w) =~= seq![seq![w.last()]]);
        assert(seq![w.last()] =~= w);
    } else {
        let p = w.drop_last();
        assert(is_word(p)) by {
            assert forall|i: int| 0 <= i < p.len() implies !is_word_space(#[trigger] p[i]) by {
                assert(p[i] == w[i]);
            }
        }
        lemma_single_word(p);
        assert(w[w.len() - 2] == p.last());
        assert(!is_word_space(w[w.len() - 2]));
        assert(!is_word_space(w.last()));
        assert(p.push(w.last()) =~= w);
        assert(seq![p].update(0, p.push(w.last())) =~= seq![w]);
    }
}

/// The decimal text of a 32-bit integer is a non-empty word.
proof fn lemma_signed_text_is_word(v: i32)
    ensures
        signed_text(v as int).len() > 0,
        is_word(signed_text(v as int)),
{
    let m: nat = if v < 0 {
        (-(v as int)) as nat
    } else {
        v as nat
    };
    lemma_decimal_text_reads_back(m);
    let d = decimal_text(m);
    assert forall|i: int| 0 <= i < d.len() implies !is_word_space(#[trigger] d[i]) by {
        assert(dec_digit_value(d[i]) is Some);
    }
    if v < 0 {
        let t = signed_text(v as int);
        assert forall|i: int| 0 <= i < t.len() implies !is_word_space(#[trigger] t[i]) by {
            if i > 0 {
                assert(t[i] == d[i - 1]);
            }
        }
    }
}

/// The words of a chunk of the form word-then-space, appended after text
/// that ends in a word space.
proof fn lemma_push_word(acc: Seq<char>, w: Seq<char>, sp: char)
    requires
        acc.len() == 0 || is_word_space(acc.last()),
        w.len() > 0,
        is_word(w),
        is_word_space(sp),
    ensures
        words_of(acc + w.push(sp)) == words_of(acc).push(w),
        is_word_space((acc + w.push(sp)).last()),
{
    lemma_words_concat(acc, w.push(sp));
    lemma_word_then_space(w, sp);
    assert(words_of(acc) + seq![w] =~= words_of(acc).push(w));
}

/// The words of a command's request line are the command's words as typed.
pub open spec fn command_words(c: CliCommandView) -> Seq<Seq<char>> {
    match c {
        CliCommandView::Rect { x1, y1, x2, y2 } => seq![
            "rect"@,
            signed_text(x1 as int),
            signed_text(y1 as int),
            signed_text(x2 as int),
            signed_text(y2 as int),
        ],
        CliCommandView::Magnifier { x, y, zoom } => match zoom {
            Some(z) => seq!["magnifier"@, signed_text(x as int), signed_text(y as int), z],
            None => seq!["magnifier"@, signed_text(x as int), signed_text(y as int)],
        },
        CliCommandView::Clear => seq!["clear"@],
    }
}

/// Whether a command is one the command-line grammar can give: a rectangle
/// with width and height, a magnifier whose zoom, if given, is one
/// non-empty word, or clear.
pub open spec fn well_formed_command(c: CliCommandView) -> bool {
    match c {
        CliCommandView::Rect { x1, y1, x2, y2 } => x1 != x2 && y1 != y2,
        CliCommandView::Magnifier { zoom, .. } => match zoom {
            Some(z) => z.len() > 0 && is_word(z),
            None => true,
        },
        CliCommandView::Clear => true,
    }
}

/// The words of a rectangle's request line.
proof fn lemma_rect_words(x1: i32, y1: i32, x2: i32, y2: i32)
    ensures
        ({
            let c = CliCommandView::Rect { x1, y1, x2, y2 };
            words_of(request_text(c)) == command_words(c)
        }),
{
    reveal_strlit("rect ");
    reveal_strlit("rect");
    reveal_strlit(" ");
    reveal_strlit("\n");
    let c = CliCommandView::Rect { x1, y1, x2, y2 };
    let rect = "rect"@;
    assert(is_word(rect));
    lemma_signed_text_is_word(x1);
    lemma_signed_text_is_word(y1);
    lemma_signed_text_is_word(x2);
    lemma_signed_text_is_word(y2);
    let (a, b, cc, d) = (
        signed_text(x1 as int),
        signed_text(y1 as int),
        signed_text(x2 as int),
        signed_text(y2 as int),
    );
    let e = Seq::<char>::empty();
    let t1 = e + rect.push(' ');
    let t2 = t1 + a.push(' ');
    let t3 = t2 + b.push(' ');
    let t4 = t3 + cc.push(' ');
    let t5 = t4 + d.push('\n');
    lemma_push_word(e, rect, ' ');
    lemma_push_word(t1, a, ' ');
    lemma_push_word(t2, b, ' ');
    lemma_push_word(t3, cc, ' ');
    lemma_push_word(t4, d, '\n');
    assert(words_of(e) =~= Seq::<Seq<char>>::empty());
    assert(t5 =~= request_text(c));
    assert(words_of(t5) =~= command_words(c));
}

/// The words of a magnifier's request line.
proof fn lemma_magnifier_words(x: i32, y: i32, zoom: Option<Seq<char>>)
    requires
        zoom matches Some(z) ==> z.len() > 0 && is_word(z),
    ensures
        ({
            let c = CliCommandView::Magnifier { x, y, zoom };
            words_of(request_text(c)) == command_words(c)
        }),
{
    reveal_strlit("magnifier ");
    reveal_strlit("magnifier");
    reveal_strlit(" ");
    reveal_strlit("\n");
    let c = CliCommandView::Magnifier { x, y, zoom };
    let mag = "magnifier"@;
    assert(is_word(mag));
    lemma_signed_text_is_word(x);
    lemma_signed_text_is_word(y);
    let (a, b) = (signed_text(x as int), signed_text(y as int));
    let e = Seq::<char>::empty();
    let t1 = e + mag.push(' ');
    let t2 = t1 + a.push(' ');
    lemma_push_word(e, mag, ' ');
    lemma_push_word(t1, a, ' ');
    assert(words_of(e) =~= Seq::<Seq<char>>::empty());
    match zoom {
        Some(z) => {
            let t3 = t2 + b.push(' ');
            let t4 = t3 + z.push('\n');
            lemma_push_word(t2, b, ' ');
            lemma_push_word(t3, z, '\n');
            assert(t4 =~= request_text(c));
            assert(words_of(t4) =~= command_words(c));
        },
        None => {
            let t3 = t2 + b.push('\n');
            lemma_push_word(t2, b, '\n');
            assert(t3 =~= request_text(c));
            assert(words_of(t3) =~= command_words(c));
        },
    }
}

/// The words of the clear request line.
proof fn lemma_clear_words()
    ensures
        words_of(request_text(CliCommandView::Clear)) == command_words(CliCommandView::Clear),
{
    reveal_strlit("clear\n");
    reveal_strlit("clear");
    let e = Seq::<char>::empty();
    let cl = "clear"@;
    assert(is_word(cl));
    lemma_push_word(e, cl, '\n');
    assert(words_of(e) =~= Seq::<Seq<char>>::empty());
    assert(e + cl.push('\n') =~= request_text(CliCommandView::Clear));
    assert(words_of(e + cl.push('\n')) =~= command_words(CliCommandView::Clear));
}

/// A rectangle's words read back as the rectangle.
proof fn lemma_rect_outcome(x1: i32, y1: i32, x2: i32, y2: i32)
    requires
        x1 != x2,
        y1 != y2,
    ensures
        ({
            let c = CliCommandView::Rect { x1, y1, x2, y2 };
            visual_command_outcome(command_words(c)) == Ok::<CliCommandView, (Seq<char>, Seq<char>)>(c)
        }),
{
    reveal_strlit("rect");
    lemma_i32_text_round_trip(x1);
    lemma_i32_text_round_trip(y1);
    lemma_i32_text_round_trip(x2);
    lemma_i32_text_round_trip(y2);
}

/// A magnifier's words read back as the magnifier.
proof fn lemma_magnifier_outcome(x: i32, y: i32, zoom: Option<Seq<char>>)
    ensures
        ({
            let c = CliCommandView::Magnifier { x, y, zoom };
            visual_command_outcome(command_words(c)) == Ok::<CliCommandView, (Seq<char>, Seq<char>)>(c)
        }),
{
    reveal_strlit("magnifier");
    reveal_strlit("rect");
    lemma_i32_text_round_trip(x);
    lemma_i32_text_round_trip(y);
}

/// What the server reads is what the client sent: the request line of any
/// command the command line can give reads back as that very command.
#[verifier::spinoff_prover]
pub proof fn lemma_request_round_trip(c: CliCommandView)
    requires
        well_formed_command(c),
    ensures
        words_of(request_text(c)) == command_words(c),
        visual_command_outcome(words_of(request_text(c))) == Ok::<
            CliCommandView,
            (Seq<char>, Seq<char>),
        >(c),
{
    match c {
        CliCommandView::Rect { x1, y1, x2, y2 } => {
            lemma_rect_words(x1, y1, x2, y2);
            lemma_rect_outcome(x1, y1, x2, y2);
        },
        CliCommandView::Magnifier { x, y, zoom } => {
            lemma_magnifier_words(x, y, zoom);
            lemma_magnifier_outcome(x, y, zoom);
        },
        CliCommandView::Clear => {
            lemma_clear_words();
            reveal_strlit("clear");
            reveal_strlit("rect");
            reveal_strlit("magnifier");
        },
    }
}

/// A text that ends in neither a carriage return nor a line feed, followed
/// by one line feed, is trimmed back to itself.
proof fn lemma_trim_one_line_end(x: Seq<char>)
    requires
        x.len() == 0 || (x.last() != '\r' && x.last() != '\n'),
    ensures
        trim_line_end(x.push('\n')) == x,
{
    assert(x.push('\n').drop_last() =~= x);
    assert(trim_line_end(x) == x);
}

/// The first space in a text that has none before a space.
proof fn lemma_first_space_after_word(a: Seq<char>, rest: Seq<char>)
    requires
        forall|i: int| 0 <= i < a.len() ==> a[i] != ' ',
    ensures
        first_space(a + seq![' '] + rest) == a.len(),
    decreases a.len(),
{
    if a.len() == 0 {
        assert((a + seq![' '] + rest)[0] == ' ');
    } else {
        assert((a + seq![' '] + rest).drop_first() =~= a.drop_first() + seq![' '] + rest);
        assert forall|i: int| 0 <= i < a.drop_first().len() implies a.drop_first()[i] != ' ' by {
            assert(a.drop_first()[i] == a[i + 1]);
        }
        lemma_first_space_after_word(a.drop_first(), rest);
    }
}

/// What the client reads is what the server answered: the reply line of a
/// result reads back as that result, when the error code holds no space and
/// the message does not end in a line end.
pub proof fn lemma_response_round_trip(r: Result<(), (Seq<char>, Seq<char>)>)
    requires
        r matches Err((code, message)) ==> (forall|i: int| 0 <= i < code.len() ==> code[i] != ' ')
            && (message.len() == 0 || (message.last() != '\r' && message.last() != '\n')),
    ensures
        response_outcome(response_text(r)) == r,
{
    reveal_strlit("ok\n");
    reveal_strlit("ok");
    reveal_strlit("error ");
    reveal_strlit(" ");
    reveal_strlit("\n");
    match r {
        Ok(u) => {
            assert(u == ());
            assert("ok"@.len() == 2 && "ok"@.last() == 'k');
            lemma_trim_one_line_end("ok"@);
            assert("ok\n"@ =~= "ok"@.push('\n'));
            assert(trim_line_end(response_text(r)) == "ok"@);
        },
        Err((code, message)) => {
            let body = "error "@ + code + " "@ + message;
            assert(response_text(r) =~= body.push('\n'));
            if message.len() == 0 {
                assert(body.last() == ' ');
            } else {
                assert(body.last() == message.last());
            }
            lemma_trim_one_line_end(body);
            assert(body.len() >= 7);
            assert(body.take(6) =~= "error "@);
            let rest = body.skip(6);
            assert(rest =~= code + seq![' '] + message);
            lemma_first_space_after_word(code, message);
            assert(rest.take(code.len() as int) =~= code);
            assert(rest.skip(code.len() as int + 1) =~= message);
        },
    }
}

} // verus!
