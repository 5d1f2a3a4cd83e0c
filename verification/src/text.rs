//! Text building: joining, decimal numbers, splitting into lines.

use vstd::prelude::*;
use vstd::string::*;

verus! {

/// `String::push` appends one character to the end of the string.
pub assume_specification[ String::push ](text: &mut String, ch: char)
    ensures
        final(text)@ == old(text)@.push(ch),
;

/// The contents of a sequence of strings.
pub open spec fn views(strings: Seq<String>) -> Seq<Seq<char>> {
    Seq::new(strings.len(), |i: int| strings[i]@)
}

/// The contents of a sequence of string slices.
pub open spec fn str_views(strings: Seq<&str>) -> Seq<Seq<char>> {
    Seq::new(strings.len(), |i: int| strings[i]@)
}

/// The parts in order, with `separator` between each two of them.
pub open spec fn joined(parts: Seq<Seq<char>>, separator: Seq<char>) -> Seq<char>
    decreases parts.len(),
{
    if parts.len() == 0 {
        Seq::empty()
    } else if parts.len() == 1 {
        parts[0]
    } else {
        joined(parts.drop_last(), separator) + separator + parts.last()
    }
}

/// The decimal digits of `n`, without leading zeros.
pub open spec fn decimal(n: nat) -> Seq<char>
    decreases n,
{
    if n < 10 {
        seq![digit(n)]
    } else {
        decimal(n / 10).push(digit(n % 10))
    }
}

/// The character that stands for the number `d`, for `d` below ten.
pub open spec fn digit(d: nat) -> char {
    (48 + d) as char
}

/// The position of the first line feed, or the length of the text if there is none.
pub open spec fn line_end(text: Seq<char>) -> nat
    decreases text.len(),
{
    if text.len() == 0 || text[0] == '\n' {
        0
    } else {
        1 + line_end(text.drop_first())
    }
}

/// A line, without the carriage return that may stand at its end.
pub open spec fn without_return(line: Seq<char>) -> Seq<char> {
    if line.len() > 0 && line.last() == '\r' {
        line.drop_last()
    } else {
        line
    }
}

/// The lines of a text. A line ends in a line feed, or in a carriage return and a line feed, which
/// are not part of it; the last line may do without.
pub open spec fn lines_of(text: Seq<char>) -> Seq<Seq<char>>
    decreases text.len(),
{
    if text.len() == 0 {
        Seq::empty()
    } else if line_end(text) >= text.len() {
        seq![text]
    } else {
        seq![without_return(text.take(line_end(text) as int))] + lines_of(
            text.skip(line_end(text) as int + 1),
        )
    }
}

/// Whether two texts hold the same characters.
pub fn same_text(a: &str, b: &str) -> (same: bool)
    ensures
        same == (a@ == b@),
{
    a.to_owned() == b.to_owned()
}

/// Joins `parts`, with `separator` between each two of them.
pub fn join(parts: &Vec<String>, separator: &str) -> (text: String)
    ensures
        text@ == joined(views(parts@), separator@),
{
    let mut text = String::new();
    for i in 0..parts.len()
        invariant
            text@ == joined(views(parts@).take(i as int), separator@),
    {
        if i > 0 {
            text.append(separator);
        }
        text.append(parts[i].as_str());
        assert(views(parts@).take(i + 1).drop_last() == views(parts@).take(i as int));
        assert(views(parts@).take(i + 1).last() == parts@[i as int]@);
    }
    assert(views(parts@).take(parts@.len() as int) == views(parts@));
    text
}

/// The character of a digit.
fn digit_char(d: u64) -> (c: char)
    requires
        d < 10,
    ensures
        c == digit(d as nat),
{
    match d {
        0 => '0',
        1 => '1',
        2 => '2',
        3 => '3',
        4 => '4',
        5 => '5',
        6 => '6',
        7 => '7',
        8 => '8',
        _ => '9',
    }
}

/// The decimal representation of `n`.
pub fn decimal_text(n: u64) -> (text: String)
    ensures
        text@ == decimal(n as nat),
    decreases n,
{
    let mut text = if n < 10 {
        String::new()
    } else {
        decimal_text(n / 10)
    };
    text.push(digit_char(n % 10));
    text
}

/// Where the first line of a text ends, if it begins with `line` and goes on with `rest`.
proof fn lemma_line_end(line: Seq<char>, rest: Seq<char>)
    requires
        !line.contains('\n'),
    ensures
        line_end(line + rest) == line.len() + line_end(rest),
    decreases line.len(),
{
    if line.len() == 0 {
        assert(line + rest =~= rest);
    } else {
        assert(line[0] != '\n');
        assert((line + rest).drop_first() =~= line.drop_first() + rest);
        assert forall|i: int| 0 <= i < line.drop_first().len() implies line.drop_first()[i]
            != '\n' by {
            assert(line.drop_first()[i] == line[i + 1]);
        }
        lemma_line_end(line.drop_first(), rest);
    }
}

/// A line that ends in a line feed is the first of the lines.
proof fn lemma_first_line(line: Seq<char>, rest: Seq<char>)
    requires
        !line.contains('\n'),
    ensures
        lines_of(line.push('\n') + rest) == seq![without_return(line)] + lines_of(rest),
{
    let text = line.push('\n') + rest;
    assert(text =~= line + (seq!['\n'] + rest));
    lemma_line_end(line, seq!['\n'] + rest);
    assert(text.take(line.len() as int) =~= line);
    assert(text.skip(line.len() as int + 1) =~= rest);
}

/// Text without a line feed is one line, unless it is empty.
proof fn lemma_only_line(line: Seq<char>)
    requires
        !line.contains('\n'),
    ensures
        lines_of(line) == if line.len() == 0 {
            Seq::<Seq<char>>::empty()
        } else {
            seq![line]
        },
{
    lemma_line_end(line, Seq::empty());
    assert(line + Seq::<char>::empty() =~= line);
}

/// The characters of a line that is being read: those in `line`, and a carriage return behind them
/// if there is one of which it is open whether it ends the line.
spec fn read_so_far(line: Seq<char>, returned: bool) -> Seq<char> {
    if returned {
        line.push('\r')
    } else {
        line
    }
}

/// Splits a text into its lines.
pub fn lines(text: &str) -> (lines: Vec<String>)
    ensures
        views(lines@) == lines_of(text@),
{
    let mut lines: Vec<String> = Vec::new();
    let mut line = String::new();
    let mut returned = false;
    assert(views(lines@) + lines_of(read_so_far(line@, returned) + text@) =~= lines_of(text@)) by {
        assert(line@ + text@ =~= text@);
    }
    assert(text@.skip(0) =~= text@);
    for c in chars: text.chars()
        invariant
            chars.seq() == text@,
            !read_so_far(line@, returned).contains('\n'),
            !returned && line@.len() > 0 ==> line@.last() != '\r',
            views(lines@) + lines_of(read_so_far(line@, returned) + text@.skip(chars.index()))
                == lines_of(text@),
    {
        let ghost rest = text@.skip(chars.index() + 1);
        let ghost before = read_so_far(line@, returned);
        let ghost lines_before = views(lines@);
        assert(before + text@.skip(chars.index()) =~= before.push(c) + rest);
        if c == '\n' {
            proof {
                lemma_first_line(before, rest);
                assert(without_return(before) =~= line@);
            }
            lines.push(line);
            assert(views(lines@) =~= lines_before.push(line@));
            line = String::new();
            returned = false;
            assert(read_so_far(line@, returned) + rest =~= rest);
            assert(lines_before + (seq![without_return(before)] + lines_of(rest)) =~= views(lines@)
                + lines_of(rest));
        } else {
            if returned {
                line.push('\r');
            }
            returned = c == '\r';
            if !returned {
                line.push(c);
            }
            assert(read_so_far(line@, returned) =~= before.push(c));
        }
    }
    proof {
        let before = read_so_far(line@, returned);
        assert(before + text@.skip(text@.len() as int) =~= before);
        lemma_only_line(before);
    }
    if returned {
        line.push('\r');
    }
    if !line.as_str().is_empty() {
        lines.push(line);
    }
    assert(views(lines@) =~= lines_of(text@));
    lines
}

/// Nothing joined is nothing, and one part joined is that part.
pub proof fn few_parts_are_joined(part: Seq<char>, separator: Seq<char>)
    ensures
        joined(Seq::empty(), separator) == Seq::<char>::empty(),
        joined(seq![part], separator) == part,
{
}

/// Parts followed by other parts are joined with the separator between the two.
pub proof fn joining_distributes(
    first: Seq<Seq<char>>,
    second: Seq<Seq<char>>,
    separator: Seq<char>,
)
    requires
        first.len() > 0,
        second.len() > 0,
    ensures
        joined(first + second, separator) == joined(first, separator) + separator + joined(
            second,
            separator,
        ),
    decreases second.len(),
{
    let all = first + second;
    assert(all.drop_last() =~= first + second.drop_last());
    assert(all.last() == second.last());
    if second.len() == 1 {
        assert(all.drop_last() =~= first);
    } else {
        joining_distributes(first, second.drop_last(), separator);
        assert(joined(first, separator) + separator + joined(second.drop_last(), separator)
            + separator + second.last() =~= joined(first, separator) + separator + (joined(
            second.drop_last(),
            separator,
        ) + separator + second.last()));
    }
}

/// The number that decimal digits stand for.
pub open spec fn number_of(digits: Seq<char>) -> int
    decreases digits.len(),
{
    if digits.len() == 0 {
        0
    } else {
        10 * number_of(digits.drop_last()) + (digits.last() as int - '0' as int)
    }
}

/// The decimal representation of a number consists of digits, which stand for that number, and
/// begins with a zero only for zero itself.
pub proof fn decimals_stand_for_their_number(n: nat)
    ensures
        decimal(n).len() > 0,
        forall|i: int| 0 <= i < decimal(n).len() ==> '0' <= #[trigger] decimal(n)[i] <= '9',
        number_of(decimal(n)) == n,
        decimal(n)[0] == '0' ==> n == 0 && decimal(n).len() == 1,
    decreases n,
{
    let digits = decimal(n);
    if n < 10 {
        assert(digits.drop_last() =~= Seq::empty());
        assert(number_of(digits.drop_last()) == 0);
    } else {
        decimals_stand_for_their_number(n / 10);
        assert(digits.drop_last() =~= decimal(n / 10));
        assert(digits[0] == decimal(n / 10)[0]);
    }
}

/// Whether a line is brought to its end by `ending`: by a line feed, with a carriage return before
/// it that is then not part of the line; or, the last line, by the end of the text.
pub open spec fn is_ended(line: Seq<char>, ending: Seq<char>, last: bool) -> bool {
    ||| ending == seq!['\n'] && !(line.len() > 0 && line.last() == '\r')
    ||| ending == seq!['\r', '\n']
    ||| ending == Seq::<char>::empty() && last && line.len() > 0
}

/// The lines with their endings, one after the other.
pub open spec fn with_endings(lines: Seq<Seq<char>>, endings: Seq<Seq<char>>) -> Seq<char>
    decreases lines.len(),
{
    if lines.len() == 0 {
        Seq::empty()
    } else {
        lines[0] + endings[0] + with_endings(lines.drop_first(), endings.drop_first())
    }
}

/// Whether the lines with these endings make up the text.
pub open spec fn make_up(
    lines: Seq<Seq<char>>,
    endings: Seq<Seq<char>>,
    text: Seq<char>,
) -> bool {
    &&& endings.len() == lines.len()
    &&& forall|i: int|
        0 <= i < lines.len() ==> is_ended(
            #[trigger] lines[i],
            endings[i],
            i == lines.len() - 1,
        )
    &&& with_endings(lines, endings) == text
}

/// The lines of a text make it up, with their endings, and no line goes on beyond a line feed.
pub proof fn lines_make_up_the_text(text: Seq<char>)
    ensures
        exists|endings: Seq<Seq<char>>| make_up(lines_of(text), endings, text),
        forall|i: int|
            0 <= i < lines_of(text).len() ==> !(#[trigger] lines_of(text)[i]).contains('\n'),
    decreases text.len(),
{
    let lines = lines_of(text);
    let none = Seq::<Seq<char>>::empty();
    let end = line_end(text) as int;
    lemma_line_end_is_first(text);
    if text.len() == 0 {
        assert(with_endings(lines, none) =~= text);
        assert(make_up(lines, none, text));
    } else if end >= text.len() {
        let endings = seq![Seq::<char>::empty()];
        assert(text.take(end) =~= text);
        assert(lines.drop_first() =~= none);
        assert(with_endings(lines.drop_first(), endings.drop_first()) =~= Seq::empty());
        assert(with_endings(lines, endings) =~= text);
        assert(make_up(lines, endings, text));
    } else {
        let rest = text.skip(end + 1);
        lines_make_up_the_text(rest);
        let others = choose|endings: Seq<Seq<char>>| make_up(lines_of(rest), endings, rest);
        let line = text.take(end);
        let ending = if line.len() > 0 && line.last() == '\r' {
            seq!['\r', '\n']
        } else {
            seq!['\n']
        };
        let endings = seq![ending] + others;
        assert(lines.drop_first() =~= lines_of(rest));
        assert(endings.drop_first() =~= others);
        assert(lines[0] + ending + rest =~= text);
        assert forall|i: int| 0 <= i < lines.len() implies is_ended(
            #[trigger] lines[i],
            endings[i],
            i == lines.len() - 1,
        ) by {
            if i > 0 {
                assert(lines[i] == lines_of(rest)[i - 1]);
                assert(endings[i] == others[i - 1]);
            }
        }
        assert(make_up(lines, endings, text));
        assert forall|i: int| 0 <= i < lines.len() implies !(#[trigger] lines[i]).contains(
            '\n',
        ) by {
            if i > 0 {
                assert(lines[i] == lines_of(rest)[i - 1]);
            }
        }
    }
}

/// No line feed comes before the first one.
proof fn lemma_line_end_is_first(text: Seq<char>)
    ensures
        line_end(text) <= text.len(),
        !text.take(line_end(text) as int).contains('\n'),
        line_end(text) < text.len() ==> text[line_end(text) as int] == '\n',
    decreases text.len(),
{
    if text.len() > 0 && text[0] != '\n' {
        let rest = text.drop_first();
        lemma_line_end_is_first(rest);
        let line = text.take(line_end(text) as int);
        assert forall|i: int| 0 <= i < line.len() implies line[i] != '\n' by {
            if i > 0 {
                assert(line[i] == rest.take(line_end(rest) as int)[i - 1]);
            }
        }
    }
}

} // verus!
