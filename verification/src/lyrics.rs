//! The text side of LRC lyrics: the offset tag, each line's timestamp
//! tags and words, and the ordering and merging of timed lines.
//!
//! A timestamp's seconds are a decimal fraction that the caller turns
//! into a span of time; everything else about reading an LRC file is
//! here.
use vstd::prelude::*;
use crate::model::Span;
use crate::numbers::{parse_i64, parse_i64_spec, parse_u32, parse_u32_spec};
use crate::text::{
    chars_of, find_char, find_char_index, segments, split_on, starts_with_str, str_views, trim,
    trim_str, string_views,
};

verus! {

/// A line on the recording's playback timeline.
#[derive(Debug, PartialEq)]
pub struct TimedLine {
    pub at: Span,
    pub text: String,
}

impl Clone for TimedLine {
    fn clone(&self) -> (r: Self)
        ensures
            r@ == self@,
    {
        TimedLine { at: self.at, text: self.text.clone() }
    }
}

/// A timed line by its values.
pub struct TimedLineView {
    pub at: Span,
    pub text: Seq<char>,
}

impl View for TimedLine {
    type V = TimedLineView;

    open spec fn view(&self) -> TimedLineView {
        TimedLineView { at: self.at, text: self.text@ }
    }
}

/// The views of a sequence of timed lines.
pub open spec fn line_views(s: Seq<TimedLine>) -> Seq<TimedLineView> {
    s.map_values(|l: TimedLine| l@)
}

/// Lyrics with their provider's attribution.
#[derive(Clone, Debug, PartialEq)]
pub struct Lyrics {
    pub text: String,
    pub source: String,
    pub timed_lines: Vec<TimedLine>,
}

/// The offset a trimmed line sets: `[offset:N]` with `N` a signed
/// number of milliseconds.
pub open spec fn offset_of_line(line: Seq<char>) -> Option<i64> {
    let t = trim(line);
    let head = "[offset:"@;
    if head.is_prefix_of(t) && t.len() >= head.len() + 1 && t.last() == ']' {
        parse_i64_spec(t.subrange(head.len() as int, t.len() - 1))
    } else {
        None
    }
}

/// The offset the last offset line of `lines` sets.
pub open spec fn last_offset(lines: Seq<Seq<char>>) -> Option<i64>
    decreases lines.len(),
{
    if lines.len() == 0 {
        None
    } else {
        match offset_of_line(lines.last()) {
            Some(o) => Some(o),
            None => last_offset(lines.drop_last()),
        }
    }
}

/// The milliseconds every timestamp of `input` moves by: the last
/// offset tag's, or none.
pub open spec fn lrc_offset_spec(input: Seq<char>) -> i64 {
    match last_offset(segments(input, '\n')) {
        Some(o) => o,
        None => 0,
    }
}

/// The offset a line sets, if it is an offset tag.
pub fn line_offset(line: &str) -> (r: Option<i64>)
    ensures
        r == offset_of_line(line@),
{
    let t = trim_str(line);
    let chars = chars_of(t);
    let n = chars.len();
    proof {
        reveal_strlit("[offset:");
    }
    if !starts_with_str(t, "[offset:") || n < 9 || chars[n - 1] != ']' {
        return None;
    }
    let middle = t.substring_char(8, n - 1);
    parse_i64(middle)
}

/// The milliseconds every timestamp of `input` moves by.
pub fn lrc_offset(input: &str) -> (r: i64)
    ensures
        r == lrc_offset_spec(input@),
{
    let lines = split_on(input, '\n');
    let ghost all = str_views(lines@);
    let mut i = lines.len();
    assert(all.take(i as int) =~= all);
    while i > 0
        invariant
            i <= lines@.len(),
            all == str_views(lines@),
            all == segments(input@, '\n'),
            last_offset(all) == last_offset(all.take(i as int)),
        decreases i,
    {
        proof {
            assert(all.take(i as int).drop_last() =~= all.take(i - 1));
            assert(all.take(i as int).last() == lines@[i - 1]@);
        }
        match line_offset(lines[i - 1]) {
            Some(o) => {
                return o;
            },
            None => {},
        }
        i = i - 1;
    }
    0
}

/// A line's timestamp tags, and the words after them: each leading
/// `[...]` is a tag, until one stays unclosed.
pub open spec fn tags_and_text(rest: Seq<char>) -> (Seq<Seq<char>>, Seq<char>)
    decreases rest.len(),
{
    if rest.len() > 0 && rest[0] == '[' {
        let tagged = rest.drop_first();
        match find_char(tagged, ']') {
            None => (Seq::empty(), rest),
            Some(k) => {
                if 0 <= k < tagged.len() {
                    let (tags, text) = tags_and_text(tagged.skip(k + 1));
                    (seq![tagged.take(k)] + tags, text)
                } else {
                    (Seq::empty(), rest)
                }
            },
        }
    } else {
        (Seq::empty(), rest)
    }
}

/// The tags of a line, and its words trimmed.
pub open spec fn lrc_line_spec(line: Seq<char>) -> (Seq<Seq<char>>, Seq<char>) {
    let (tags, text) = tags_and_text(trim(line));
    (tags, trim(text))
}

/// One line of an LRC file: its leading tags, and its words.
pub struct LrcLine {
    pub tags: Vec<String>,
    pub text: String,
}

/// The leading tags and the words of one line of an LRC file.
pub fn lrc_line(line: &str) -> (r: LrcLine)
    ensures
        (string_views(r.tags@), r.text@) == lrc_line_spec(line@),
{
    let mut rest = trim_str(line);
    let mut tags: Vec<String> = Vec::new();
    let ghost whole = rest@;
    assert(string_views(tags@) + tags_and_text(rest@).0 =~= tags_and_text(whole).0);
    loop
        invariant
            string_views(tags@) + tags_and_text(rest@).0 == tags_and_text(whole).0,
            tags_and_text(rest@).1 == tags_and_text(whole).1,
        ensures
            string_views(tags@) == tags_and_text(whole).0,
            rest@ == tags_and_text(whole).1,
        decreases rest@.len(),
    {
        let chars = chars_of(rest);
        if chars.len() == 0 || chars[0] != '[' {
            proof {
                assert(string_views(tags@) + Seq::<Seq<char>>::empty() =~= string_views(tags@));
            }
            break;
        }
        let n = chars.len();
        let tagged = rest.substring_char(1, n);
        let tagged_chars = chars_of(tagged);
        proof {
            assert(tagged@ =~= rest@.drop_first());
        }
        let k = match find_char_index(&tagged_chars, ']') {
            Some(k) => k,
            None => {
                proof {
                    assert(string_views(tags@) + Seq::<Seq<char>>::empty() =~= string_views(tags@));
                }
                break;
            },
        };
        proof {
            crate::cookie_paste::lemma_find_char_contains(tagged@, ']');
        }
        let tag = tagged.substring_char(0, k).to_owned();
        let tail = tagged.substring_char(k + 1, tagged_chars.len());
        proof {
            assert(tag@ =~= tagged@.take(k as int));
            assert(tail@ =~= tagged@.skip(k + 1));
            let ghost before = tags@;
            assert(tags_and_text(rest@).0 == seq![tag@] + tags_and_text(tail@).0);
        }
        let ghost before = tags@;
        tags.push(tag);
        proof {
            assert(string_views(tags@) =~= string_views(before).push(tag@));
            assert(string_views(tags@) + tags_and_text(tail@).0 =~= string_views(before) + (seq![
                tag@,
            ] + tags_and_text(tail@).0));
        }
        rest = tail;
    }
    LrcLine { tags, text: trim_str(rest).to_owned() }
}

/// A timestamp tag's minutes and the text of its seconds:
/// `minutes:seconds`, with whole minutes.
pub open spec fn stamp_parts_spec(tag: Seq<char>) -> Option<(u32, Seq<char>)> {
    match find_char(tag, ':') {
        None => None,
        Some(k) => match parse_u32_spec(tag.take(k)) {
            Some(m) => Some((m, tag.skip(k + 1))),
            None => None,
        },
    }
}

/// A timestamp tag's minutes and the text of its seconds.
pub fn stamp_parts(tag: &str) -> (r: Option<(u32, String)>)
    ensures
        match r {
            Some((m, s)) => stamp_parts_spec(tag@) == Some((m, s@)),
            None => stamp_parts_spec(tag@) is None,
        },
{
    let chars = chars_of(tag);
    let n = chars.len();
    let k = match find_char_index(&chars, ':') {
        Some(k) => k,
        None => {
            return None;
        },
    };
    proof {
        crate::cookie_paste::lemma_find_char_contains(tag@, ':');
    }
    let minutes = tag.substring_char(0, k);
    let seconds = tag.substring_char(k + 1, n);
    proof {
        assert(minutes@ =~= tag@.take(k as int));
        assert(seconds@ =~= tag@.skip(k + 1));
    }
    match parse_u32(minutes) {
        Some(m) => Some((m, seconds.to_owned())),
        None => None,
    }
}

/// `a` is at or before `b`.
pub open spec fn at_or_before(a: Span, b: Span) -> bool {
    a.secs < b.secs || (a.secs == b.secs && a.nanos <= b.nanos)
}

/// `sorted` with `e` placed after every line at or before it, and
/// before the later ones.
pub open spec fn insert_by_time(sorted: Seq<TimedLineView>, e: TimedLineView) -> Seq<TimedLineView>
    decreases sorted.len(),
{
    if sorted.len() == 0 {
        seq![e]
    } else if at_or_before(sorted.last().at, e.at) {
        sorted.push(e)
    } else {
        insert_by_time(sorted.drop_last(), e).push(sorted.last())
    }
}

/// The lines ordered by time; lines at one time keep their order
/// (the order a stable sort leaves them in).
pub open spec fn by_time(lines: Seq<TimedLineView>) -> Seq<TimedLineView>
    decreases lines.len(),
{
    if lines.len() == 0 {
        Seq::empty()
    } else {
        insert_by_time(by_time(lines.drop_last()), lines.last())
    }
}

/// `merged` with the line `e` added: a line at the time of the last
/// one joins it, its words on a new line (an empty line adds nothing).
pub open spec fn merge_step(merged: Seq<TimedLineView>, e: TimedLineView) -> Seq<TimedLineView> {
    if merged.len() > 0 && merged.last().at == e.at {
        if e.text.len() == 0 {
            merged
        } else {
            let last = merged.last();
            let text = if last.text.len() == 0 {
                e.text
            } else {
                last.text + "\n"@ + e.text
            };
            merged.update(merged.len() - 1, TimedLineView { at: last.at, text })
        }
    } else {
        merged.push(e)
    }
}

/// The ordered lines merged, one per time.
pub open spec fn merged(sorted: Seq<TimedLineView>) -> Seq<TimedLineView>
    decreases sorted.len(),
{
    if sorted.len() == 0 {
        Seq::empty()
    } else {
        merge_step(merged(sorted.drop_last()), sorted.last())
    }
}

/// Some line has words.
pub open spec fn any_words(lines: Seq<TimedLineView>) -> bool {
    exists|i: int| 0 <= i < lines.len() && #[trigger] lines[i].text.len() > 0
}

/// The timed lines of a file: ordered by time, simultaneous lines
/// combined in source order, and none at all when no line has words.
pub open spec fn timed_lines_spec(entries: Seq<TimedLineView>) -> Seq<TimedLineView> {
    let m = merged(by_time(entries));
    if any_words(m) {
        m
    } else {
        Seq::empty()
    }
}

/// Whether `a` is at or before `b`.
fn at_or_before_exec(a: Span, b: Span) -> (r: bool)
    ensures
        r == at_or_before(a, b),
{
    a.secs < b.secs || (a.secs == b.secs && a.nanos <= b.nanos)
}

/// Orders the lines by time, keeping simultaneous lines in their
/// order.
pub fn sort_by_time(entries: Vec<TimedLine>) -> (r: Vec<TimedLine>)
    ensures
        line_views(r@) == by_time(line_views(entries@)),
{
    let mut sorted: Vec<TimedLine> = Vec::new();
    let mut i: usize = 0;
    while i < entries.len()
        invariant
            i <= entries@.len(),
            line_views(sorted@) == by_time(line_views(entries@.take(i as int))),
        decreases entries@.len() - i,
    {
        proof {
            assert(line_views(entries@.take(i + 1)).drop_last() =~= line_views(entries@.take(i as int)));
            assert(line_views(entries@.take(i + 1)).last() == entries@[i as int]@);
        }
        insert_sorted(&mut sorted, entries[i].clone());
        i = i + 1;
    }
    proof {
        assert(entries@.take(entries@.len() as int) =~= entries@);
    }
    sorted
}

/// Places `e` after every line of `sorted` at or before it.
fn insert_sorted(sorted: &mut Vec<TimedLine>, e: TimedLine)
    ensures
        line_views(final(sorted)@) == insert_by_time(line_views(old(sorted)@), e@),
{
    let mut p = sorted.len();
    proof {
        assert(sorted@.take(p as int) =~= sorted@);
        assert(line_views(sorted@.skip(p as int)) =~= Seq::<TimedLineView>::empty());
        assert(insert_by_time(line_views(sorted@), e@) + Seq::<TimedLineView>::empty() =~= insert_by_time(line_views(sorted@), e@));
    }
    while p > 0 && !at_or_before_exec(sorted[p - 1].at, e.at)
        invariant
            p <= sorted@.len(),
            sorted@ == old(sorted)@,
            insert_by_time(line_views(sorted@), e@) == insert_by_time(
                line_views(sorted@.take(p as int)),
                e@,
            ) + line_views(sorted@.skip(p as int)),
        decreases p,
    {
        proof {
            let pre = line_views(sorted@.take(p as int));
            assert(pre.drop_last() =~= line_views(sorted@.take(p - 1)));
            assert(pre.last() == sorted@[p - 1]@);
            assert(line_views(sorted@.skip(p - 1)) =~= seq![sorted@[p - 1]@] + line_views(sorted@.skip(p as int)));
            assert(insert_by_time(pre, e@) == insert_by_time(pre.drop_last(), e@).push(pre.last()));
            assert(insert_by_time(pre.drop_last(), e@).push(pre.last()) + line_views(sorted@.skip(p as int))
                =~= insert_by_time(line_views(sorted@.take(p - 1)), e@) + line_views(sorted@.skip(p - 1)));
        }
        p = p - 1;
    }
    proof {
        let pre = line_views(sorted@.take(p as int));
        if p > 0 {
            assert(pre.last() == sorted@[p - 1]@);
        }
        assert(insert_by_time(pre, e@) =~= pre.push(e@));
    }
    let ghost before = sorted@;
    sorted.insert(p, e);
    proof {
        assert(line_views(sorted@) =~= line_views(before.take(p as int)).push(e@) + line_views(before.skip(p as int)));
    }
}

/// Combines the lines at one time and drops a file with no words.
pub fn merge_timed_lines(sorted: Vec<TimedLine>) -> (r: Vec<TimedLine>)
    ensures
        line_views(r@) == if any_words(merged(line_views(sorted@))) {
            merged(line_views(sorted@))
        } else {
            Seq::empty()
        },
{
    let mut lines: Vec<TimedLine> = Vec::new();
    let mut i: usize = 0;
    while i < sorted.len()
        invariant
            i <= sorted@.len(),
            line_views(lines@) == merged(line_views(sorted@.take(i as int))),
        decreases sorted@.len() - i,
    {
        proof {
            assert(line_views(sorted@.take(i + 1)).drop_last() =~= line_views(sorted@.take(i as int)));
            assert(line_views(sorted@.take(i + 1)).last() == sorted@[i as int]@);
        }
        let e = &sorted[i];
        let m = lines.len();
        if m > 0 && lines[m - 1].at == e.at {
            if !e.text.as_str().is_empty() {
                let mut last = lines[m - 1].clone();
                if last.text.as_str().is_empty() {
                    last.text = e.text.clone();
                } else {
                    last.text.append("\n");
                    last.text.append(e.text.as_str());
                }
                let ghost before = lines@;
                lines.set(m - 1, last);
                proof {
                    assert(line_views(lines@) =~= line_views(before).update(m - 1, last@));
                }
            }
        } else {
            let ghost before = lines@;
            lines.push(e.clone());
            proof {
                assert(line_views(lines@) =~= line_views(before).push(e@));
            }
        }
        i = i + 1;
    }
    proof {
        assert(sorted@.take(sorted@.len() as int) =~= sorted@);
    }
    let mut k: usize = 0;
    let mut words = false;
    while k < lines.len()
        invariant
            k <= lines@.len(),
            words == exists|j: int| 0 <= j < k && #[trigger] line_views(lines@)[j].text.len() > 0,
        decreases lines@.len() - k,
    {
        if !lines[k].text.as_str().is_empty() {
            proof {
                assert(line_views(lines@)[k as int].text.len() > 0);
            }
            words = true;
        }
        k = k + 1;
    }
    if !words {
        let empty: Vec<TimedLine> = Vec::new();
        assert(line_views(empty@) =~= Seq::<TimedLineView>::empty());
        return empty;
    }
    lines
}

/// Orders and merges the timed lines of a file.
pub fn timed_lines(entries: Vec<TimedLine>) -> (r: Vec<TimedLine>)
    ensures
        line_views(r@) == timed_lines_spec(line_views(entries@)),
{
    let sorted = sort_by_time(entries);
    merge_timed_lines(sorted)
}

/// The lines come in time order.
pub open spec fn in_time_order(s: Seq<TimedLineView>) -> bool {
    forall|i: int, j: int| 0 <= i < j < s.len() ==> at_or_before(s[i].at, s[j].at)
}

/// Every line of `s` is `e` or a line of `t`.
pub open spec fn drawn_from(s: Seq<TimedLineView>, t: Seq<TimedLineView>, e: TimedLineView) -> bool {
    forall|i: int| 0 <= i < s.len() ==> #[trigger] s[i] == e || t.contains(s[i])
}

/// Placing a line keeps time order, and adds nothing but that line.
proof fn lemma_insert_by_time(sorted: Seq<TimedLineView>, e: TimedLineView)
    requires
        in_time_order(sorted),
    ensures
        in_time_order(insert_by_time(sorted, e)),
        drawn_from(insert_by_time(sorted, e), sorted, e),
        insert_by_time(sorted, e).len() == sorted.len() + 1,
    decreases sorted.len(),
{
    if sorted.len() == 0 {
        assert(insert_by_time(sorted, e) =~= seq![e]);
    } else if !at_or_before(sorted.last().at, e.at) {
        let rest = sorted.drop_last();
        let last = sorted.last();
        assert(in_time_order(rest));
        lemma_insert_by_time(rest, e);
        let inner = insert_by_time(rest, e);
        let r = inner.push(last);
        assert(insert_by_time(sorted, e) == r);
        assert forall|i: int| 0 <= i < inner.len() implies at_or_before(#[trigger] inner[i].at, last.at) by {
            if inner[i] != e {
                let k = choose|k: int| 0 <= k < rest.len() && rest[k] == inner[i];
                assert(at_or_before(sorted[k].at, sorted[sorted.len() - 1].at));
            }
        }
        assert forall|i: int, j: int| 0 <= i < j < r.len() implies at_or_before(r[i].at, r[j].at) by {
            if j == r.len() - 1 {
                assert(r[j] == last);
                assert(r[i] == inner[i]);
                assert(at_or_before(inner[i].at, last.at));
            } else {
                assert(r[i] == inner[i] && r[j] == inner[j]);
            }
        }
        assert forall|i: int| 0 <= i < r.len() implies #[trigger] r[i] == e || sorted.contains(r[i]) by {
            if i < inner.len() {
                assert(r[i] == inner[i]);
                if inner[i] != e {
                    let k = choose|k: int| 0 <= k < rest.len() && rest[k] == inner[i];
                    assert(sorted[k] == inner[i]);
                }
            } else {
                assert(sorted[sorted.len() - 1] == last);
            }
        }
    } else {
        let r = sorted.push(e);
        assert(insert_by_time(sorted, e) == r);
        assert forall|i: int, j: int| 0 <= i < j < r.len() implies at_or_before(r[i].at, r[j].at) by {
            if j == r.len() - 1 {
                assert(r[i] == sorted[i]);
                if i < sorted.len() - 1 {
                    assert(at_or_before(sorted[i].at, sorted[sorted.len() - 1].at));
                }
            } else {
                assert(r[i] == sorted[i] && r[j] == sorted[j]);
            }
        }
        assert forall|i: int| 0 <= i < r.len() implies #[trigger] r[i] == e || sorted.contains(r[i]) by {
            if i < sorted.len() {
                assert(r[i] == sorted[i]);
            }
        }
    }
}

/// Ordering by time gives the lines in time order, each from the input.
proof fn lemma_by_time(lines: Seq<TimedLineView>)
    ensures
        in_time_order(by_time(lines)),
        by_time(lines).len() == lines.len(),
        forall|i: int| 0 <= i < by_time(lines).len() ==> lines.contains(#[trigger] by_time(lines)[i]),
    decreases lines.len(),
{
    if lines.len() > 0 {
        lemma_by_time(lines.drop_last());
        lemma_insert_by_time(by_time(lines.drop_last()), lines.last());
        let r = by_time(lines);
        assert forall|i: int| 0 <= i < r.len() implies lines.contains(#[trigger] r[i]) by {
            if r[i] == lines.last() {
                assert(lines[lines.len() - 1] == r[i]);
            } else {
                let k = choose|k: int| 0 <= k < by_time(lines.drop_last()).len() && by_time(lines.drop_last())[k] == r[i];
                let m = choose|m: int| 0 <= m < lines.drop_last().len() && lines.drop_last()[m] == r[i];
                assert(lines[m] == r[i]);
            }
        }
    }
}

/// Merging lines in time order leaves one line per time, in strictly
/// increasing time, the last at the time of the last input line.
proof fn lemma_merged(sorted: Seq<TimedLineView>)
    requires
        in_time_order(sorted),
    ensures
        forall|i: int, j: int| 0 <= i < j < merged(sorted).len() ==> earlier_line(merged(sorted)[i], merged(sorted)[j]),
        sorted.len() > 0 ==> merged(sorted).len() > 0 && merged(sorted).last().at == sorted.last().at,
        sorted.len() == 0 ==> merged(sorted).len() == 0,
    decreases sorted.len(),
{
    if sorted.len() > 0 {
        let rest = sorted.drop_last();
        assert(in_time_order(rest));
        lemma_merged(rest);
        let m = merged(rest);
        let e = sorted.last();
        let r = merged(sorted);
        assert(r == merge_step(m, e));
        if m.len() > 0 && m.last().at == e.at {
            if e.text.len() > 0 {
                let last = m.last();
                let text = if last.text.len() == 0 {
                    e.text
                } else {
                    last.text + "\n"@ + e.text
                };
                assert(r == m.update(m.len() - 1, TimedLineView { at: last.at, text }));
                assert forall|i: int, j: int| 0 <= i < j < r.len() implies earlier_line(r[i], r[j]) by {
                    assert(earlier_line(m[i], m[j]));
                    assert(r[i].at == m[i].at && r[j].at == m[j].at);
                }
            }
        } else {
            if m.len() > 0 {
                assert(m.last().at == rest.last().at);
                assert(at_or_before(sorted[sorted.len() - 2].at, sorted[sorted.len() - 1].at));
                assert(earlier_line(m.last(), e));
            }
            assert forall|i: int, j: int| 0 <= i < j < r.len() implies earlier_line(r[i], r[j]) by {
                if j == r.len() - 1 {
                    assert(r[j] == e);
                    assert(r[i] == m[i]);
                    if i < m.len() - 1 {
                        assert(earlier_line(m[i], m[m.len() - 1]));
                    }
                } else {
                    assert(r[i] == m[i] && r[j] == m[j]);
                }
            }
        }
    }
}

/// Line `a` plays strictly before line `b`.
pub open spec fn earlier_line(a: TimedLineView, b: TimedLineView) -> bool {
    at_or_before(a.at, b.at) && a.at != b.at
}

/// The timed lines of a file come in strictly increasing time, one per
/// time: lines at the same time are combined, never shown twice.
pub proof fn law_timed_lines_strictly_ordered(entries: Seq<TimedLineView>)
    ensures
        forall|i: int, j: int|
            0 <= i < j < timed_lines_spec(entries).len() ==> earlier_line(
                timed_lines_spec(entries)[i],
                timed_lines_spec(entries)[j],
            ),
{
    lemma_by_time(entries);
    lemma_merged(by_time(entries));
}

} // verus!
