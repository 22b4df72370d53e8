//! Reading the ban list: comment lines are dropped, every other line that is
//! not blank is one ruling.

use vstd::prelude::*;
use crate::model::{BanlistEntry, BanlistEntryView, views, lemma_views_push};
use crate::text::{chars_of, string_of, parse_decimal, decimal_within};

verus! {

/// The character that opens a comment line.
pub open spec fn comment_marker() -> char {
    '#'
}

/// The length of the first line of `s`, its line feed included where it has
/// one.
pub open spec fn first_line_len(s: Seq<char>) -> int
    decreases s.len(),
{
    if s.len() == 0 {
        0
    } else if s[0] == '\n' {
        1
    } else {
        1 + first_line_len(s.drop_first())
    }
}

/// `s` without the lines that begin with the comment marker. Every other
/// line stays as it is, line feed included.
pub open spec fn strip_comments(s: Seq<char>) -> Seq<char>
    decreases s.len(),
{
    if s.len() == 0 {
        s
    } else {
        let n = first_line_len(s);
        if n <= 0 || n > s.len() {
            s
        } else if s[0] == comment_marker() {
            strip_comments(s.skip(n))
        } else {
            s.take(n) + strip_comments(s.skip(n))
        }
    }
}

/// Whether `s` is exactly one line: not empty, and with no line feed but
/// possibly at its end.
pub open spec fn is_line(s: Seq<char>) -> bool {
    s.len() > 0 && forall|i: int| 0 <= i < s.len() - 1 ==> s[i] != '\n'
}

/// Whether a line may follow `s`: `s` is empty or ends with a line feed.
pub open spec fn ends_lines(s: Seq<char>) -> bool {
    s.len() == 0 || s.last() == '\n'
}

/// The first line lies within the text, is not empty unless the text is,
/// holds no line feed before its end, and ends with one unless it ends the
/// text.
pub proof fn lemma_first_line_bounds(s: Seq<char>)
    ensures
        0 <= first_line_len(s) <= s.len(),
        s.len() > 0 ==> first_line_len(s) > 0,
        forall|i: int| 0 <= i < first_line_len(s) - 1 ==> s[i] != '\n',
        first_line_len(s) < s.len() ==> s[first_line_len(s) - 1] == '\n',
    decreases s.len(),
{
    if s.len() > 0 && s[0] != '\n' {
        lemma_first_line_bounds(s.drop_first());
        let n = first_line_len(s.drop_first());
        assert forall|i: int| 0 <= i < first_line_len(s) - 1 implies s[i] != '\n' by {
            if i > 0 {
                assert(s.drop_first()[i - 1] == s[i]);
            }
        }
        if first_line_len(s) < s.len() {
            assert(s.drop_first()[n - 1] == s[n]);
        }
    }
}

/// The first line of `s` ends at the first line feed, or with `s`.
pub proof fn lemma_first_line_at(s: Seq<char>, n: int)
    requires
        0 < n <= s.len(),
        forall|i: int| 0 <= i < n - 1 ==> s[i] != '\n',
        n == s.len() || s[n - 1] == '\n',
    ensures
        first_line_len(s) == n,
    decreases s.len(),
{
    if s[0] == '\n' {
        if n > 1 {
            assert(s[0] != '\n');
        }
    } else {
        assert(n > 1 || n == s.len());
        if s.len() > 1 {
            let t = s.drop_first();
            assert forall|i: int| 0 <= i < n - 2 implies t[i] != '\n' by {
                assert(t[i] == s[i + 1]);
            }
            assert(n - 1 == t.len() || t[n - 2] == s[n - 1]);
            lemma_first_line_at(t, n - 1);
        } else {
            assert(first_line_len(s.drop_first()) == 0);
        }
    }
}

/// Stripping works line by line: where `a` is made of whole lines, stripping
/// `a + b` strips `a` and strips `b`.
pub proof fn lemma_strip_concat(a: Seq<char>, b: Seq<char>)
    requires
        ends_lines(a),
    ensures
        strip_comments(a + b) == strip_comments(a) + strip_comments(b),
    decreases a.len(),
{
    if a.len() == 0 {
        assert(a + b =~= b);
        assert(strip_comments(a) + strip_comments(b) =~= strip_comments(b));
    } else {
        let n = first_line_len(a);
        lemma_first_line_bounds(a);
        let s = a + b;
        assert forall|i: int| 0 <= i < n - 1 implies s[i] != '\n' by {
            assert(s[i] == a[i]);
        }
        assert(s[n - 1] == a[n - 1]);
        assert(a[n - 1] == '\n');
        lemma_first_line_at(s, n);
        assert(s.skip(n) =~= a.skip(n) + b);
        assert(s.take(n) =~= a.take(n));
        assert(ends_lines(a.skip(n))) by {
            if a.skip(n).len() > 0 {
                assert(a.skip(n).last() == a.last());
            }
        }
        lemma_strip_concat(a.skip(n), b);
        if a[0] == comment_marker() {
        } else {
            assert(a.take(n) + (strip_comments(a.skip(n)) + strip_comments(b)) =~= (a.take(n)
                + strip_comments(a.skip(n))) + strip_comments(b));
        }
    }
}

/// A single line is dropped whole when it begins with the comment marker,
/// and kept as it is otherwise.
pub proof fn lemma_strip_line(line: Seq<char>)
    requires
        is_line(line),
    ensures
        strip_comments(line) == if line[0] == comment_marker() {
            Seq::<char>::empty()
        } else {
            line
        },
{
    lemma_first_line_at(line, line.len() as int);
    assert(line.skip(line.len() as int) =~= Seq::<char>::empty());
    assert(line.take(line.len() as int) =~= line);
    assert(strip_comments(Seq::<char>::empty()) =~= Seq::<char>::empty());
    assert(line + Seq::<char>::empty() =~= line);
}

/// Stripping removes exactly the lines whose first character is the comment
/// marker: among whole lines `before` and any text `after`, a comment line
/// vanishes and any other line stays verbatim, wherever else in it the
/// marker stands.
pub proof fn lemma_strip_removes_exactly_comment_lines(
    before: Seq<char>,
    line: Seq<char>,
    after: Seq<char>,
)
    requires
        ends_lines(before),
        is_line(line),
        after.len() == 0 || line.last() == '\n',
    ensures
        strip_comments(before + line + after) == if line[0] == comment_marker() {
            strip_comments(before) + strip_comments(after)
        } else {
            strip_comments(before) + line + strip_comments(after)
        },
{
    lemma_strip_concat(before, line + after);
    assert(before + line + after =~= before + (line + after));
    lemma_strip_line(line);
    if after.len() == 0 {
        assert(line + after =~= line);
        assert(strip_comments(after) =~= Seq::<char>::empty());
        assert(strip_comments(before) + line + strip_comments(after) =~= strip_comments(before)
            + line);
        assert(strip_comments(before) + strip_comments(after) =~= strip_comments(before));
        assert(strip_comments(before) + Seq::<char>::empty() =~= strip_comments(before));
    } else {
        lemma_strip_concat(line, after);
        assert(Seq::<char>::empty() + strip_comments(after) =~= strip_comments(after));
        assert(strip_comments(before) + (line + strip_comments(after)) =~= strip_comments(before)
            + line + strip_comments(after));
    }
}

/// A line without its line feed.
pub open spec fn line_body(line: Seq<char>) -> Seq<char> {
    if line.len() > 0 && line.last() == '\n' {
        line.drop_last()
    } else {
        line
    }
}

/// The position of the last space of `line`, or -1 where it has none.
pub open spec fn last_space(line: Seq<char>) -> int
    decreases line.len(),
{
    if line.len() == 0 {
        -1
    } else if line.last() == ' ' {
        line.len() - 1
    } else {
        last_space(line.drop_last())
    }
}

/// Whether a line ends in a tier: it has a space that is not its first
/// character, and what follows its last space is a run of decimal digits
/// whose value fits 32 bits.
pub open spec fn states_tier(line: Seq<char>) -> bool {
    last_space(line) > 0 && decimal_within(line.skip(last_space(line) + 1), u32::MAX as nat)
        is Some
}

/// The ruling that a line states. Where the line ends in a tier, the card
/// is what stands before the last space; any other line, whatever it holds,
/// is a card without a tier.
pub open spec fn ruling_of(line: Seq<char>) -> BanlistEntryView {
    if states_tier(line) {
        BanlistEntryView {
            card: line.take(last_space(line)),
            tier: Some(decimal_within(line.skip(last_space(line) + 1), u32::MAX as nat)->0 as u32),
        }
    } else {
        BanlistEntryView { card: line, tier: None }
    }
}

/// The rulings of the lines of `s`, in order: one for every line that is not
/// blank.
pub open spec fn rulings_from(s: Seq<char>) -> Seq<BanlistEntryView>
    decreases s.len(),
{
    if s.len() == 0 {
        Seq::empty()
    } else {
        let n = first_line_len(s);
        if n <= 0 || n > s.len() {
            Seq::empty()
        } else {
            let body = line_body(s.take(n));
            if body.len() == 0 {
                rulings_from(s.skip(n))
            } else {
                seq![ruling_of(body)] + rulings_from(s.skip(n))
            }
        }
    }
}

/// What reading a ban list gives: the rulings of the lines that are left
/// once the comment lines are gone.
pub open spec fn banlist_of(text: Seq<char>) -> Seq<BanlistEntryView> {
    rulings_from(strip_comments(text))
}

/// Rulings are read line by line: where `a` is made of whole lines, the
/// rulings of `a + b` are those of `a`, then those of `b`.
pub proof fn lemma_rulings_concat(a: Seq<char>, b: Seq<char>)
    requires
        ends_lines(a),
    ensures
        rulings_from(a + b) == rulings_from(a) + rulings_from(b),
    decreases a.len(),
{
    if a.len() == 0 {
        assert(a + b =~= b);
        assert(rulings_from(a) + rulings_from(b) =~= rulings_from(b));
    } else {
        let n = first_line_len(a);
        lemma_first_line_bounds(a);
        let s = a + b;
        assert forall|i: int| 0 <= i < n - 1 implies s[i] != '\n' by {
            assert(s[i] == a[i]);
        }
        assert(s[n - 1] == a[n - 1]);
        assert(a[n - 1] == '\n');
        lemma_first_line_at(s, n);
        assert(s.skip(n) =~= a.skip(n) + b);
        assert(s.take(n) =~= a.take(n));
        assert(ends_lines(a.skip(n))) by {
            if a.skip(n).len() > 0 {
                assert(a.skip(n).last() == a.last());
            }
        }
        lemma_rulings_concat(a.skip(n), b);
        let body = line_body(a.take(n));
        if body.len() > 0 {
            assert(seq![ruling_of(body)] + (rulings_from(a.skip(n)) + rulings_from(b)) =~= (
            seq![ruling_of(body)] + rulings_from(a.skip(n))) + rulings_from(b));
        }
    }
}

/// Every line that is not blank gives exactly one ruling, whatever it
/// holds: a marker after other content does not make it a comment, and does
/// not refuse it.
pub proof fn lemma_one_ruling_per_line(line: Seq<char>)
    requires
        is_line(line),
        line_body(line).len() > 0,
    ensures
        rulings_from(line) == seq![ruling_of(line_body(line))],
{
    lemma_first_line_at(line, line.len() as int);
    assert(line.take(line.len() as int) =~= line);
    assert(line.skip(line.len() as int) =~= Seq::<char>::empty());
    assert(rulings_from(Seq::<char>::empty()) =~= Seq::<BanlistEntryView>::empty());
    assert(seq![ruling_of(line_body(line))] + Seq::<BanlistEntryView>::empty() =~= seq![
        ruling_of(line_body(line)),
    ]);
}

fn first_line_end(s: &[char], start: usize) -> (end: usize)
    requires
        start < s.len(),
    ensures
        start < end <= s.len(),
        end - start == first_line_len(s@.skip(start as int)),
{
    let mut end: usize = start;
    while end < s.len() && s[end] != '\n'
        invariant
            start <= end <= s.len(),
            forall|i: int| start <= i < end ==> s@[i] != '\n',
        decreases s.len() - end,
    {
        end += 1;
    }
    if end < s.len() {
        end += 1;
    }
    proof {
        let t = s@.skip(start as int);
        assert forall|i: int| 0 <= i < end - start - 1 implies t[i] != '\n' by {
            assert(t[i] == s@[start + i]);
        }
        lemma_first_line_at(t, end - start);
    }
    end
}

/// Removes every line that begins with `#`, and nothing else.
pub fn strip_comment_chars(s: &[char]) -> (out: Vec<char>)
    ensures
        out@ == strip_comments(s@),
{
    let mut out: Vec<char> = Vec::new();
    let mut start: usize = 0;
    proof {
        assert(s@.skip(0) =~= s@);
        assert(out@ + strip_comments(s@) =~= strip_comments(s@));
    }
    while start < s.len()
        invariant
            0 <= start <= s.len(),
            strip_comments(s@) == out@ + strip_comments(s@.skip(start as int)),
        decreases s.len() - start,
    {
        let end = first_line_end(s, start);
        let ghost rest = s@.skip(start as int);
        let ghost kept = out@;
        proof {
            assert(rest.skip(end - start) =~= s@.skip(end as int));
            assert(rest[0] == s@[start as int]);
        }
        if s[start] != '#' {
            let mut k: usize = start;
            while k < end
                invariant
                    start <= k <= end <= s.len(),
                    out@ == kept + s@.subrange(start as int, k as int),
                decreases end - k,
            {
                out.push(s[k]);
                assert(out@ =~= kept + s@.subrange(start as int, k + 1));
                k += 1;
            }
            proof {
                assert(rest.take(end - start) =~= s@.subrange(start as int, end as int));
                assert(kept + (rest.take(end - start) + strip_comments(s@.skip(end as int)))
                    =~= out@ + strip_comments(s@.skip(end as int)));
            }
        }
        start = end;
    }
    proof {
        assert(s@.skip(start as int) =~= Seq::<char>::empty());
        assert(out@ + Seq::<char>::empty() =~= out@);
    }
    out
}

/// The text without its comment lines.
pub fn strip_comment_lines(text: &str) -> (out: String)
    ensures
        out@ == strip_comments(text@),
{
    let chars = chars_of(text);
    let kept = strip_comment_chars(chars.as_slice());
    string_of(kept.as_slice())
}

fn find_last_space(line: &[char]) -> (out: Option<usize>)
    ensures
        match out {
            Some(k) => k == last_space(line@) && k < line.len(),
            None => last_space(line@) == -1,
        },
{
    let mut k: usize = line.len();
    proof {
        assert(line@.take(k as int) =~= line@);
    }
    while k > 0
        invariant
            0 <= k <= line.len(),
            last_space(line@) == last_space(line@.take(k as int)),
        decreases k,
    {
        proof {
            assert(line@.take(k as int).drop_last() =~= line@.take(k - 1));
        }
        if line[k - 1] == ' ' {
            return Some(k - 1);
        }
        k -= 1;
    }
    proof {
        assert(line@.take(0).len() == 0);
    }
    None
}

fn read_ruling(line: &[char]) -> (out: BanlistEntry)
    ensures
        out@ == ruling_of(line@),
{
    match find_last_space(line) {
        None => BanlistEntry { card: string_of(line), tier: None },
        Some(k) => {
            if k == 0 {
                return BanlistEntry { card: string_of(line), tier: None };
            }
            let digits = vstd::slice::slice_subrange(line, k + 1, line.len());
            let name = vstd::slice::slice_subrange(line, 0, k);
            assert(digits@ == line@.skip(k + 1));
            assert(name@ == line@.take(k as int));
            match parse_decimal(digits, 0xffff_ffff) {
                Some(t) => BanlistEntry { card: string_of(name), tier: Some(t as u32) },
                None => BanlistEntry { card: string_of(line), tier: None },
            }
        },
    }
}

/// Reads the rulings from text that holds no comment lines.
pub fn read_rulings(s: &[char]) -> (out: Vec<BanlistEntry>)
    ensures
        views(out@) == rulings_from(s@),
{
    let mut entries: Vec<BanlistEntry> = Vec::new();
    let mut start: usize = 0;
    proof {
        assert(s@.skip(0) =~= s@);
        assert(views(entries@) + rulings_from(s@) =~= rulings_from(s@));
    }
    while start < s.len()
        invariant
            0 <= start <= s.len(),
            rulings_from(s@) == views(entries@) + rulings_from(s@.skip(start as int)),
        decreases s.len() - start,
    {
        let end = first_line_end(s, start);
        let body_end = if s[end - 1] == '\n' {
            end - 1
        } else {
            end
        };
        let body = vstd::slice::slice_subrange(s, start, body_end);
        let ghost rest = s@.skip(start as int);
        proof {
            assert(rest.skip(end - start) =~= s@.skip(end as int));
            assert(rest.take(end - start) =~= s@.subrange(start as int, end as int));
            assert(body@ =~= line_body(rest.take(end - start)));
        }
        if body.len() > 0 {
            let entry = read_ruling(body);
            let ghost before = entries@;
            entries.push(entry);
            proof {
                lemma_views_push(before, entry);
                let next = rulings_from(s@.skip(end as int));
                assert(views(before) + (seq![entry@] + next) =~= views(entries@) + next);
            }
        }
        start = end;
    }
    proof {
        assert(s@.skip(start as int) =~= Seq::<char>::empty());
        assert(views(entries@) + Seq::<BanlistEntryView>::empty() =~= views(entries@));
    }
    entries
}

/// Reads a ban list: drops the comment lines, then reads one ruling from
/// each line that is not blank.
pub fn parse_banlist(text: &str) -> (out: Vec<BanlistEntry>)
    ensures
        views(out@) == banlist_of(text@),
{
    let chars = chars_of(text);
    let kept = strip_comment_chars(chars.as_slice());
    read_rulings(kept.as_slice())
}

} // verus!
