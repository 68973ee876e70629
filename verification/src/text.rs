//! Text building blocks shared by the report lines.

use vstd::prelude::*;
use vstd::string::StringExecFns;

verus! {

/// The character of the decimal digit `d`.
pub open spec fn digit_char(d: nat) -> char {
    ('0' as nat + d) as char
}

/// `n` written in decimal, without leading zeros.
pub open spec fn decimal(n: nat) -> Seq<char>
    decreases n,
{
    if n < 10 {
        seq![digit_char(n)]
    } else {
        decimal(n / 10).push(digit_char(n % 10))
    }
}

/// Every character of a decimal number is a digit, and the first is not a
/// zero unless the number is zero.
pub proof fn lemma_decimal_digits(n: nat)
    ensures
        decimal(n).len() >= 1,
        forall|i: int| 0 <= i < decimal(n).len() ==> '0' <= #[trigger] decimal(n)[i] <= '9',
        n > 0 ==> decimal(n)[0] != '0',
    decreases n,
{
    if n >= 10 {
        lemma_decimal_digits(n / 10);
    }
}

/// The one-character text of a decimal digit.
fn digit_text(d: u64) -> (s: &'static str)
    requires
        d < 10,
    ensures
        s@ == seq![digit_char(d as nat)],
{
    proof {
        reveal_strlit("0");
        reveal_strlit("1");
        reveal_strlit("2");
        reveal_strlit("3");
        reveal_strlit("4");
        reveal_strlit("5");
        reveal_strlit("6");
        reveal_strlit("7");
        reveal_strlit("8");
        reveal_strlit("9");
    }
    let s = if d == 0 {
        "0"
    } else if d == 1 {
        "1"
    } else if d == 2 {
        "2"
    } else if d == 3 {
        "3"
    } else if d == 4 {
        "4"
    } else if d == 5 {
        "5"
    } else if d == 6 {
        "6"
    } else if d == 7 {
        "7"
    } else if d == 8 {
        "8"
    } else {
        "9"
    };
    assert(s@ =~= seq![digit_char(d as nat)]);
    s
}

/// Appends `n` in decimal to `out`.
pub fn push_decimal(out: &mut String, n: u64)
    ensures
        final(out)@ == old(out)@ + decimal(n as nat),
    decreases n,
{
    if n >= 10 {
        push_decimal(out, n / 10);
    }
    out.append(digit_text(n % 10));
    assert(out@ =~= old(out)@ + decimal(n as nat));
}

/// Whether `c` has the Unicode property White_Space.
pub open spec fn is_white_space(c: char) -> bool {
    let u = c as u32;
    ||| 0x09 <= u <= 0x0D
    ||| u == 0x20
    ||| u == 0x85
    ||| u == 0xA0
    ||| u == 0x1680
    ||| 0x2000 <= u <= 0x200A
    ||| u == 0x2028
    ||| u == 0x2029
    ||| u == 0x202F
    ||| u == 0x205F
    ||| u == 0x3000
}

/// `s` without the white space at its end.
pub open spec fn trimmed_end(s: Seq<char>) -> Seq<char>
    decreases s.len(),
{
    if s.len() > 0 && is_white_space(s.last()) {
        trimmed_end(s.drop_last())
    } else {
        s
    }
}

/// `s` without the white space at its start.
pub open spec fn trimmed_start(s: Seq<char>) -> Seq<char>
    decreases s.len(),
{
    if s.len() > 0 && is_white_space(s.first()) {
        trimmed_start(s.drop_first())
    } else {
        s
    }
}

/// `s` without the white space at either end.
pub open spec fn trimmed(s: Seq<char>) -> Seq<char> {
    trimmed_start(trimmed_end(s))
}

/// The first line of `s`, without its line ending: a line feed, or a
/// carriage return and a line feed. The empty text has no first line.
pub open spec fn first_line(s: Seq<char>) -> Option<Seq<char>> {
    if s.len() == 0 {
        None
    } else {
        let end = line_end(s);
        if end < s.len() && end > 0 && s[end - 1] == '\r' {
            Some(s.take(end - 1))
        } else {
            Some(s.take(end))
        }
    }
}

/// Where the first line feed of `s` stands, or the length of `s` where it has
/// none.
pub open spec fn line_end(s: Seq<char>) -> int
    decreases s.len(),
{
    if s.len() == 0 || s.first() == '\n' {
        0
    } else {
        1 + line_end(s.drop_first())
    }
}

/// `line_end` is the least index of a line feed.
pub proof fn lemma_line_end(s: Seq<char>)
    ensures
        0 <= line_end(s) <= s.len(),
        line_end(s) < s.len() ==> s[line_end(s)] == '\n',
        forall|i: int| 0 <= i < line_end(s) ==> #[trigger] s[i] != '\n',
    decreases s.len(),
{
    if s.len() == 0 || s.first() == '\n' {
    } else {
        let rest = s.drop_first();
        lemma_line_end(rest);
        assert forall|i: int| 0 <= i < line_end(s) implies #[trigger] s[i] != '\n' by {
            if i > 0 {
                assert(s[i] == rest[i - 1]);
            }
        }
    }
}

/// `name` in lower case, as Unicode defines the lower case of a text.
pub uninterp spec fn lowercase(name: Seq<char>) -> Seq<char>;

/// `str::to_lowercase` of std: the lowercase equivalent of the text, which
/// depends on the text alone.
#[verifier::external_body]
pub(crate) fn to_lowercase(name: &str) -> (lowered: String)
    ensures
        lowered@ == lowercase(name@),
{
    name.to_lowercase()
}

/// `str::trim` of std: the text without leading and trailing white space,
/// where white space is what the Unicode property White_Space says.
#[verifier::external_body]
pub(crate) fn trim(s: &str) -> (t: &str)
    ensures
        t@ == trimmed(s@),
{
    s.trim()
}

/// `str::trim_end` of std: the text without trailing white space, where white
/// space is what the Unicode property White_Space says.
#[verifier::external_body]
pub(crate) fn trim_end(s: &str) -> (t: &str)
    ensures
        t@ == trimmed_end(s@),
{
    s.trim_end()
}

/// Where the first line feed of `s` stands, or the number of its characters
/// where it has none.
fn find_line_end(s: &str) -> (end: usize)
    ensures
        end == line_end(s@),
        end <= s@.len(),
{
    let len = s.unicode_len();
    let mut end: usize = 0;
    let mut found = false;
    let mut i: usize = 0;
    for c in it: s.chars()
        invariant
            i == it.index(),
            it.seq() == s@,
            len == s@.len(),
            end <= i,
            forall|k: int| 0 <= k < end ==> s@[k] != '\n',
            found ==> end < i && s@[end as int] == '\n',
            !found ==> end == i,
    {
        if !found {
            if c == '\n' {
                found = true;
            } else {
                end = end + 1;
            }
        }
        i = i + 1;
    }
    proof {
        lemma_line_end_is(s@, end as int);
    }
    end
}

/// The first line of `s`, as `lines().next()` gives it.
pub fn take_first_line(s: &str) -> (line: Option<&str>)
    ensures
        match line {
            Some(l) => first_line(s@) == Some(l@),
            None => first_line(s@) is None,
        },
{
    if s.is_empty() {
        return None;
    }
    let end = find_line_end(s);
    let line = s.substring_char(0, end);
    assert(line@ =~= s@.take(end as int));
    if end < s.unicode_len() && end > 0 && line.get_char(end - 1) == '\r' {
        let shorter = s.substring_char(0, end - 1);
        assert(shorter@ =~= s@.take(end - 1));
        Some(shorter)
    } else {
        Some(line)
    }
}

/// The report's text for a list of entries: a note where there are none, and
/// else one entry per line behind a branch sign, the last behind a corner.
///
/// A list of two or more is built with a line break before every entry and
/// then trimmed, so white space at the end of the last entry is lost with the
/// first line break. A single entry is kept as it is.
pub open spec fn tree_list(items: Seq<Seq<char>>, none: Seq<char>) -> Seq<char> {
    if items.len() == 0 {
        none
    } else if items.len() == 1 {
        "╰ "@ + items[0]
    } else {
        trimmed(branches(items, items.len() as int))
    }
}

/// The first `upto` entries of a list of two or more, each on a line of its
/// own behind its sign.
pub open spec fn branches(items: Seq<Seq<char>>, upto: int) -> Seq<char>
    decreases upto,
{
    if upto <= 0 {
        Seq::empty()
    } else {
        let sign = if upto == items.len() {
            "\n╰ "@
        } else {
            "\n│ "@
        };
        branches(items, upto - 1) + sign + items[upto - 1]
    }
}

/// What stands before the end of the last character that is no white space
/// is not touched by trimming the end.
pub proof fn lemma_trimmed_end_keeps(s: Seq<char>, i: int)
    requires
        0 <= i < s.len(),
        !is_white_space(s[i]),
    ensures
        i < trimmed_end(s).len() <= s.len(),
        trimmed_end(s) == s.take(trimmed_end(s).len() as int),
    decreases s.len(),
{
    if is_white_space(s.last()) {
        let shorter = s.drop_last();
        lemma_trimmed_end_keeps(shorter, i);
        assert(shorter.take(trimmed_end(shorter).len() as int) =~= s.take(
            trimmed_end(shorter).len() as int,
        ));
    } else {
        assert(s.take(s.len() as int) =~= s);
    }
}

/// Trimming the end and dropping the first character can be done in either
/// order where a later character is no white space.
pub proof fn lemma_trimmed_end_drop_first(s: Seq<char>, i: int)
    requires
        1 <= i < s.len(),
        !is_white_space(s[i]),
    ensures
        trimmed_end(s.drop_first()) == trimmed_end(s).drop_first(),
    decreases s.len(),
{
    if is_white_space(s.last()) {
        let shorter = s.drop_last();
        lemma_trimmed_end_drop_first(shorter, i);
        assert(s.drop_first().last() == s.last());
        assert(s.drop_first().drop_last() =~= shorter.drop_first());
    }
}

/// Two or more branches start with a line break and the branch sign.
pub proof fn lemma_branches_start(items: Seq<Seq<char>>, upto: int)
    requires
        items.len() >= 2,
        1 <= upto <= items.len(),
    ensures
        branches(items, upto).len() >= 3,
        branches(items, upto)[0] == '\n',
        branches(items, upto)[1] == '│',
    decreases upto,
{
    reveal_strlit("\n│ ");
    if upto == 1 {
        assert(branches(items, 0) =~= Seq::<char>::empty());
        assert(branches(items, 1) =~= "\n│ "@ + items[0]);
    } else {
        lemma_branches_start(items, upto - 1);
    }
}

/// A list of two or more entries is its branches without the line break
/// before the first and without white space at the end of the last.
pub proof fn lemma_tree_list_of_many(items: Seq<Seq<char>>, none: Seq<char>)
    requires
        items.len() >= 2,
    ensures
        tree_list(items, none) == trimmed_end(branches(items, items.len() as int).drop_first()),
        tree_list(items, none).len() >= 1,
        tree_list(items, none)[0] == '│',
{
    let b = branches(items, items.len() as int);
    lemma_branches_start(items, items.len() as int);
    lemma_trimmed_end_keeps(b, 1);
    lemma_trimmed_end_drop_first(b, 1);
    let kept = trimmed_end(b);
    assert(kept[0] == b[0] && kept[1] == b[1]);
    assert(is_white_space('\n'));
    assert(!is_white_space('│'));
    assert(kept.drop_first()[0] == '│');
    assert(trimmed_start(kept.drop_first()) == kept.drop_first());
}

/// Builds `tree_list`.
pub fn format_tree_list(items: &Vec<String>, none: &str) -> (text: String)
    ensures
        text@ == tree_list(Seq::new(items@.len(), |i: int| items@[i]@), none@),
{
    let ghost views = Seq::new(items@.len(), |i: int| items@[i]@);
    if items.len() == 0 {
        String::from_str(none)
    } else if items.len() == 1 {
        let mut out = String::from_str("╰ ");
        out.append(items[0].as_str());
        out
    } else {
        let mut out = String::new();
        let mut i: usize = 0;
        while i < items.len()
            invariant
                i <= items@.len(),
                views == Seq::new(items@.len(), |i: int| items@[i]@),
                out@ == branches(views, i as int),
            decreases items@.len() - i,
        {
            if i == items.len() - 1 {
                out.append("\n╰ ");
            } else {
                out.append("\n│ ");
            }
            out.append(items[i].as_str());
            i = i + 1;
        }
        String::from_str(trim(out.as_str()))
    }
}

/// A device's name as the report gives it: the name after what the report
/// leaves out was taken from it or, where that could not be done, the name as
/// it came; in either case without the white space around it.
pub open spec fn cleaned(reduced: Option<Seq<char>>, name: Seq<char>) -> Seq<char> {
    match reduced {
        Some(n) => trimmed(n),
        None => trimmed(name),
    }
}

/// Builds `cleaned`.
pub fn clean(reduced: Option<&str>, name: &str) -> (short: String)
    ensures
        short@ == cleaned(
            match reduced {
                Some(n) => Some(n@),
                None => None,
            },
            name@,
        ),
{
    match reduced {
        Some(n) => String::from_str(trim(n)),
        None => String::from_str(trim(name)),
    }
}

/// `n` spaces.
pub open spec fn spaces(n: nat) -> Seq<char> {
    Seq::new(n, |i: int| ' ')
}

/// Appends `n` spaces to `out`.
pub fn push_spaces(out: &mut String, n: usize)
    ensures
        final(out)@ == old(out)@ + spaces(n as nat),
{
    let mut i: usize = 0;
    assert(out@ =~= old(out)@ + spaces(0));
    while i < n
        invariant
            i <= n,
            out@ == old(out)@ + spaces(i as nat),
        decreases n - i,
    {
        proof {
            reveal_strlit(" ");
        }
        out.append(" ");
        i = i + 1;
        assert(out@ =~= old(out)@ + spaces(i as nat));
    }
}

/// The lines of `s`: what stands between its line feeds. A text without a
/// line feed is one line, the empty text too.
pub open spec fn split_lines(s: Seq<char>) -> Seq<Seq<char>>
    decreases s.len(),
{
    let end = line_end(s);
    if 0 <= end < s.len() {
        seq![s.take(end)] + split_lines(s.skip(end + 1))
    } else {
        seq![s]
    }
}

/// Splits a text at its line feeds.
pub fn lines_of(s: &str) -> (lines: Vec<String>)
    ensures
        Seq::new(lines@.len(), |i: int| lines@[i]@) == split_lines(s@),
{
    let len = s.unicode_len();
    let mut lines: Vec<String> = Vec::new();
    let mut start: usize = 0;
    let mut end: usize = 0;
    proof {
        assert(s@.skip(0) =~= s@);
    }
    for c in it: s.chars()
        invariant
            end == it.index(),
            it.seq() == s@,
            start <= end,
            len == s@.len(),
            forall|k: int| start <= k < end ==> s@[k] != '\n',
            Seq::new(lines@.len(), |i: int| lines@[i]@) + split_lines(s@.skip(start as int))
                == split_lines(s@),
    {
        if c == '\n' {
            let ghost before = Seq::new(lines@.len(), |i: int| lines@[i]@);
            let ghost rest = s@.skip(start as int);
            lines.push(s.substring_char(start, end).to_owned());
            proof {
                lemma_line_end_is(rest, end - start);
                assert(rest.take(end - start) =~= s@.subrange(start as int, end as int));
                assert(rest.skip(end - start + 1) =~= s@.skip(end + 1));
                assert(Seq::new(lines@.len(), |i: int| lines@[i]@) =~= before.push(
                    s@.subrange(start as int, end as int),
                ));
                assert(before.push(s@.subrange(start as int, end as int)) + split_lines(
                    s@.skip(end + 1),
                ) =~= before + split_lines(rest));
            }
            start = end + 1;
        }
        end = end + 1;
    }
    let ghost before = Seq::new(lines@.len(), |i: int| lines@[i]@);
    let ghost rest = s@.skip(start as int);
    lines.push(s.substring_char(start, len).to_owned());
    proof {
        lemma_line_end_is(rest, len - start);
        assert(s@.subrange(start as int, len as int) =~= rest);
        assert(Seq::new(lines@.len(), |i: int| lines@[i]@) =~= before.push(rest));
        assert(before.push(rest) =~= before + split_lines(rest));
    }
    lines
}

/// The first line of a text ends where its first line feed stands.
pub proof fn lemma_line_end_is(s: Seq<char>, end: int)
    requires
        0 <= end <= s.len(),
        forall|k: int| 0 <= k < end ==> s[k] != '\n',
        end < s.len() ==> s[end] == '\n',
    ensures
        line_end(s) == end,
{
    lemma_line_end(s);
    let found = line_end(s);
    if found < end {
        assert(s[found] == '\n');
    } else if found > end {
        assert(s[end] != '\n');
    }
}

} // verus!
