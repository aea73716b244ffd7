//! What holds of the text operations, said of the characters they take and give

use vstd::prelude::*;

use crate::text;

verus! {

/// Texts are ordered by the first place where they differ, and a text comes before every
/// longer one that starts with it
pub proof fn order_is_by_first_difference(a: Seq<char>, b: Seq<char>, n: int)
    requires
        0 <= n <= a.len(),
        n <= b.len(),
        forall|i: int| 0 <= i < n ==> a[i] == b[i],
    ensures
        n < a.len() && n < b.len() && a[n] != b[n] ==> (text::precedes(a, b) <==> (a[n] as u32) < (
        b[n] as u32)),
        n == a.len() ==> (text::precedes(a, b) <==> a.len() < b.len()),
        n == b.len() ==> !text::precedes(a, b),
    decreases n,
{
    if n > 0 {
        let x = a.drop_first();
        let y = b.drop_first();
        assert forall|i: int| 0 <= i < n - 1 implies x[i] == y[i] by {
            assert(a[i + 1] == b[i + 1]);
        }
        assert(a[0] == b[0]);
        order_is_by_first_difference(x, y, n - 1);
    }
}

proof fn start_is_trimmed(s: Seq<char>)
    ensures
        ({
            let rest = text::trimmed_start(s);
            &&& rest.len() <= s.len()
            &&& rest == s.skip(s.len() - rest.len())
            &&& forall|i: int|
                0 <= i < s.len() - rest.len() ==> text::is_white_space(#[trigger] s[i])
            &&& rest.len() > 0 ==> !text::is_white_space(rest[0])
        }),
    decreases s.len(),
{
    let rest = text::trimmed_start(s);
    if s.len() > 0 && text::is_white_space(s[0]) {
        let tail = s.drop_first();
        start_is_trimmed(tail);
        assert(rest =~= s.skip(s.len() - rest.len()));
        assert forall|i: int| 0 <= i < s.len() - rest.len() implies text::is_white_space(
            #[trigger] s[i],
        ) by {
            if i > 0 {
                assert(s[i] == tail[i - 1]);
            }
        }
    } else {
        assert(rest =~= s.skip(0));
    }
}

/// Trimming the end of a text takes off exactly the whitespace that it ends in
pub proof fn end_is_trimmed(s: Seq<char>)
    ensures
        ({
            let rest = text::trimmed_end(s);
            &&& rest.len() <= s.len()
            &&& rest == s.take(rest.len() as int)
            &&& forall|i: int|
                rest.len() <= i < s.len() ==> text::is_white_space(#[trigger] s[i])
            &&& rest.len() > 0 ==> !text::is_white_space(rest.last())
        }),
    decreases s.len(),
{
    let rest = text::trimmed_end(s);
    if s.len() > 0 && text::is_white_space(s.last()) {
        let init = s.drop_last();
        end_is_trimmed(init);
        assert(rest =~= s.take(rest.len() as int));
        assert forall|i: int| rest.len() <= i < s.len() implies text::is_white_space(
            #[trigger] s[i],
        ) by {
            if i < s.len() - 1 {
                assert(s[i] == init[i]);
            }
        }
    } else {
        assert(rest =~= s.take(s.len() as int));
    }
}

/// Trimming a text takes off the whitespace around it and nothing else: what is left is a
/// piece of the text that neither starts nor ends in whitespace
pub proof fn both_ends_are_trimmed(s: Seq<char>)
    ensures
        exists|start: int, end: int|
            #![trigger s.subrange(start, end)]
            {
                &&& 0 <= start <= end <= s.len()
                &&& text::trimmed(s) == s.subrange(start, end)
                &&& forall|i: int| 0 <= i < start ==> text::is_white_space(#[trigger] s[i])
                &&& forall|i: int| end <= i < s.len() ==> text::is_white_space(#[trigger] s[i])
                &&& start < end ==> !text::is_white_space(s[start]) && !text::is_white_space(
                    s[end - 1],
                )
            },
{
    let from = text::trimmed_start(s);
    let rest = text::trimmed(s);
    start_is_trimmed(s);
    end_is_trimmed(from);
    let start = s.len() - from.len();
    let end = start + rest.len();
    assert(rest =~= s.subrange(start, end));
    assert forall|i: int| end <= i < s.len() implies text::is_white_space(#[trigger] s[i]) by {
        assert(s[i] == from[i - start]);
    }
    if start < end {
        assert(s[start] == from[0]);
        assert(s[end - 1] == rest.last());
    }
}

/// Spaces, tabs and line ends are whitespace; letters, digits and punctuation are not
pub proof fn plain_whitespace(c: char)
    ensures
        c == ' ' || c == '\t' || c == '\n' || c == '\r' ==> text::is_white_space(c),
        '!' <= c && c <= '~' ==> !text::is_white_space(c),
{
}

/// Dropping a trailing character drops all of them at the end, and no other
pub proof fn trailing_characters_are_dropped(s: Seq<char>, c: char)
    ensures
        ({
            let rest = text::without_trailing(s, c);
            &&& rest.len() <= s.len()
            &&& rest == s.take(rest.len() as int)
            &&& forall|i: int| rest.len() <= i < s.len() ==> #[trigger] s[i] == c
            &&& rest.len() > 0 ==> rest.last() != c
        }),
    decreases s.len(),
{
    let rest = text::without_trailing(s, c);
    if s.len() > 0 && s.last() == c {
        let init = s.drop_last();
        trailing_characters_are_dropped(init, c);
        assert(rest =~= s.take(rest.len() as int));
        assert forall|i: int| rest.len() <= i < s.len() implies #[trigger] s[i] == c by {
            if i < s.len() - 1 {
                assert(s[i] == init[i]);
            }
        }
    } else {
        assert(rest =~= s.take(s.len() as int));
    }
}

/// Whatever is put behind a prefix is found behind it, and what is found behind a prefix makes
/// up the text with it
pub proof fn prefixes_come_off(prefix: Seq<char>, rest: Seq<char>, s: Seq<char>)
    ensures
        text::after_prefix(prefix + rest, prefix) == Some(rest),
        text::after_prefix(s, prefix) matches Some(r) ==> s == prefix + r,
{
    assert((prefix + rest).skip(prefix.len() as int) =~= rest);
    assert(prefix.is_prefix_of(prefix + rest));
    if prefix.is_prefix_of(s) {
        assert(s =~= prefix + s.skip(prefix.len() as int));
    }
}

/// A text is split at the first of a character: what stands before has none of it, and the two
/// sides make up the text around one
pub proof fn splits_come_together(left: Seq<char>, c: char, right: Seq<char>, s: Seq<char>)
    ensures
        !left.contains(c) ==> text::split_at_first(left.push(c) + right, c) == Some((left, right)),
        match text::split_at_first(s, c) {
            Some((a, b)) => s == a.push(c) + b && !a.contains(c),
            None => !s.contains(c),
        },
{
    if !left.contains(c) {
        let whole = left.push(c) + right;
        let n = left.len() as int;
        assert(whole[n] == c);
        assert forall|i: int| 0 <= i < n implies whole[i] != c by {
            assert(whole[i] == left[i]);
        }
        text::position_at(whole, c, n);
        assert(whole.take(n) =~= left);
        assert(whole.skip(n + 1) =~= right);
    }
    text::position_is_first(s, c);
    if s.contains(c) {
        let at = text::position(s, c);
        assert(s =~= s.take(at).push(c) + s.skip(at + 1));
    }
}

/// The number that some digits stand for
pub open spec fn number_in(digits: Seq<char>) -> int
    decreases digits.len(),
{
    if digits.len() == 0 {
        0
    } else {
        number_in(digits.drop_last()) * 10 + (digits.last() as u32 as int - 48)
    }
}

/// A number in decimal reads back as the number, is made of digits, and has no leading zero
pub proof fn decimal_reads_back(n: nat)
    ensures
        ({
            let digits = text::decimal_text(n);
            &&& number_in(digits) == n
            &&& digits.len() > 0
            &&& forall|i: int| 0 <= i < digits.len() ==> '0' <= #[trigger] digits[i] <= '9'
            &&& digits.len() > 1 ==> digits[0] != '0'
        }),
    decreases n,
{
    let digits = text::decimal_text(n);
    if n < 10 {
        assert(digits == seq![text::digit(n)]);
        assert(digits.drop_last().len() == 0);
        assert(number_in(digits.drop_last()) == 0);
        assert(text::digit(n) as u32 as int - 48 == n);
    } else {
        decimal_reads_back(n / 10);
        let init = text::decimal_text(n / 10);
        assert(digits == init.push(text::digit(n % 10)));
        assert(digits.drop_last() =~= init);
        assert(text::digit(n % 10) as u32 as int - 48 == n % 10);
        assert(digits[0] == init[0]);
        if init.len() == 1 {
            assert(init =~= seq![init[0]]);
            assert(init.drop_last().len() == 0);
            assert(number_in(init.drop_last()) == 0);
        }
    }
}

/// Words are joined by single spaces, however they are grouped
pub proof fn joined_words(first: Seq<char>, words: Seq<Seq<char>>)
    ensures
        text::spaced(seq![]) == Seq::<char>::empty(),
        text::spaced(seq![first]) == first,
        words.len() > 0 ==> text::spaced(seq![first] + words) == first.push(' ') + text::spaced(
            words,
        ),
    decreases words.len(),
{
    reveal_strlit(" ");
    assert(" "@ =~= seq![' ']);
    let all = seq![first] + words;
    if words.len() == 1 {
        assert(all.drop_last() =~= seq![first]);
        assert(text::spaced(seq![first]) == first);
        assert(text::spaced(words) == words[0]);
        assert(all.last() == words[0]);
        assert(text::spaced(all) == text::spaced(all.drop_last()) + " "@ + all.last());
        assert(text::spaced(all) =~= first.push(' ') + text::spaced(words));
    } else if words.len() > 1 {
        joined_words(first, words.drop_last());
        assert(all.drop_last() =~= seq![first] + words.drop_last());
        assert(all.last() == words.last());
        assert(text::spaced(all) =~= first.push(' ') + text::spaced(words));
    }
}

/// A text of lines grows by a line and a line feed for each
pub proof fn lines_are_appended(lines: Seq<Seq<char>>, line: Seq<char>)
    ensures
        text::as_lines(seq![]) == Seq::<char>::empty(),
        text::as_lines(lines.push(line)) == text::as_lines(lines) + line.push('\n'),
{
    reveal_strlit("\n");
    text::as_lines_push(lines, line);
    assert("\n"@ =~= seq!['\n']);
    assert(text::as_lines(lines) + line + "\n"@ =~= text::as_lines(lines) + line.push('\n'));
}

proof fn lines_of_a_line(line: Seq<char>)
    requires
        !line.contains('\n'),
        line.len() > 0,
    ensures
        text::lines_of(line) == seq![line],
{
    text::position_is_first(line, '\n');
}

/// A text is read line by line: a line ends at a line feed, or at a carriage return and a line
/// feed, and what follows the last line feed is a line too unless it is empty
pub proof fn lines_are_read(line: Seq<char>, rest: Seq<char>)
    requires
        !line.contains('\n'),
    ensures
        text::lines_of(seq![]) == Seq::<Seq<char>>::empty(),
        line.len() > 0 ==> text::lines_of(line) == seq![line],
        (line.len() == 0 || line.last() != '\r') ==> text::lines_of(line.push('\n') + rest)
            == seq![line] + text::lines_of(rest),
        text::lines_of(line.push('\r').push('\n') + rest) == seq![line] + text::lines_of(rest),
{
    reveal_strlit("\n");
    assert("\n"@ =~= seq!['\n']);
    if line.len() > 0 {
        lines_of_a_line(line);
    }
    text::lines_of_first(line, rest);
    assert(line + "\n"@ + rest =~= line.push('\n') + rest);
    let returned = line.push('\r');
    assert(!returned.contains('\n')) by {
        if returned.contains('\n') {
            let i = choose|i: int| 0 <= i < returned.len() && returned[i] == '\n';
            assert(line[i] == '\n');
        }
    }
    text::lines_of_first(returned, rest);
    assert(returned + "\n"@ + rest =~= returned.push('\n') + rest);
    assert(returned.drop_last() =~= line);
}

/// Lines written one to a line are the lines that are read, as long as none of them holds a
/// line feed or ends in a carriage return
pub proof fn written_lines_are_read(lines: Seq<Seq<char>>)
    requires
        forall|i: int|
            0 <= i < lines.len() ==> !(#[trigger] lines[i]).contains('\n') && (lines[i].len() == 0
                || lines[i].last() != '\r'),
    ensures
        text::lines_of(text::as_lines(lines)) == lines,
    decreases lines.len(),
{
    if lines.len() == 0 {
        assert(text::lines_of(text::as_lines(lines)) =~= lines);
    } else {
        let rest = lines.drop_first();
        assert forall|i: int| 0 <= i < rest.len() implies !(#[trigger] rest[i]).contains('\n') && (
        rest[i].len() == 0 || rest[i].last() != '\r') by {
            assert(rest[i] == lines[i + 1]);
        }
        assert(!lines[0].contains('\n'));
        written_lines_are_read(rest);
        text::lines_of_first(lines[0], text::as_lines(rest));
        assert(seq![lines[0]] + rest =~= lines);
    }
}

/// Whether a text has another one in it
pub open spec fn mentions(text: Seq<char>, part: Seq<char>) -> bool {
    exists|at: int|
        0 <= at && at + part.len() <= text.len() && #[trigger] text.subrange(
            at,
            at + part.len(),
        ) == part
}

/// A text mentions what stands in it between two others
pub proof fn mentioned(text: Seq<char>, before: Seq<char>, part: Seq<char>, after: Seq<char>)
    requires
        text =~= before + part + after,
    ensures
        mentions(text, part),
{
    let at = before.len() as int;
    assert(text.subrange(at, at + part.len()) =~= part);
}

/// Whitespace behind a text that does not end in any is what trimming its end drops
pub proof fn trailing_whitespace_is_dropped(s: Seq<char>, white: Seq<char>)
    requires
        s.len() == 0 || !text::is_white_space(s.last()),
        forall|i: int| 0 <= i < white.len() ==> text::is_white_space(#[trigger] white[i]),
    ensures
        text::trimmed_end(s + white) == s,
    decreases white.len(),
{
    if white.len() == 0 {
        assert(s + white =~= s);
    } else {
        assert(text::is_white_space(white[white.len() - 1]));
        assert((s + white).last() == white[white.len() - 1]);
        assert((s + white).drop_last() =~= s + white.drop_last());
        assert forall|i: int| 0 <= i < white.drop_last().len() implies text::is_white_space(
            #[trigger] white.drop_last()[i],
        ) by {
            assert(text::is_white_space(white[i]));
        }
        trailing_whitespace_is_dropped(s, white.drop_last());
    }
}

/// A run of a character behind a text that does not end in it is what dropping it drops
pub proof fn trailing_run_is_dropped(s: Seq<char>, c: char, run: Seq<char>)
    requires
        s.len() == 0 || s.last() != c,
        forall|i: int| 0 <= i < run.len() ==> #[trigger] run[i] == c,
    ensures
        text::without_trailing(s + run, c) == s,
    decreases run.len(),
{
    if run.len() == 0 {
        assert(s + run =~= s);
    } else {
        assert(run[run.len() - 1] == c);
        assert((s + run).last() == run[run.len() - 1]);
        assert((s + run).drop_last() =~= s + run.drop_last());
        assert forall|i: int| 0 <= i < run.drop_last().len() implies #[trigger] run.drop_last()[i]
            == c by {
            assert(run[i] == c);
        }
        trailing_run_is_dropped(s, c, run.drop_last());
    }
}

/// Whitespace is the twenty-five characters that Unicode counts as such
pub proof fn whitespace_is_what_unicode_says(c: char)
    ensures
        text::is_white_space(c) <==> {
            ||| c == '\t'
            ||| c == '\n'
            ||| c == '\u{b}'
            ||| c == '\u{c}'
            ||| c == '\r'
            ||| c == ' '
            ||| c == '\u{85}'
            ||| c == '\u{a0}'
            ||| c == '\u{1680}'
            ||| c == '\u{2000}'
            ||| c == '\u{2001}'
            ||| c == '\u{2002}'
            ||| c == '\u{2003}'
            ||| c == '\u{2004}'
            ||| c == '\u{2005}'
            ||| c == '\u{2006}'
            ||| c == '\u{2007}'
            ||| c == '\u{2008}'
            ||| c == '\u{2009}'
            ||| c == '\u{200a}'
            ||| c == '\u{2028}'
            ||| c == '\u{2029}'
            ||| c == '\u{202f}'
            ||| c == '\u{205f}'
            ||| c == '\u{3000}'
        },
{
}

} // verus!
