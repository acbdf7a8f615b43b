//! Cleaning of the captions that yt-dlp writes in WebVTT format.
use crate::text::{
    blank, chars_eq, from_chars, has_prefix, is_blank, join, join_chars, lines, split_lines,
    starts_with, to_chars, views, no_line_feed,
};
use vstd::prelude::*;

verus! {

/// A caption timestamp such as `00:01:02.345`.
pub const TIMESTAMP_PATTERN: &'static str = r"\d{2}:\d{2}:\d{2}\.\d{3}";

/// The inline `<c>` styling tags of YouTube captions.
pub const TAG_PATTERN: &'static str = "</*c.*>";

/// The header line after which the captions start.
pub const HEADER_PREFIX: &'static str = "Language";

/// Whether the regular expression `pattern` matches somewhere in `haystack`; false where
/// `pattern` is not a valid expression.
pub uninterp spec fn regex_is_match(pattern: Seq<char>, haystack: Seq<char>) -> bool;

/// `haystack` with every non-overlapping match of the regular expression `pattern` replaced by
/// `replacement`; `haystack` itself where `pattern` is not a valid expression.
pub uninterp spec fn regex_replace_all(
    pattern: Seq<char>,
    haystack: Seq<char>,
    replacement: Seq<char>,
) -> Seq<char>;

/// An ASCII digit.
pub open spec fn is_ascii_digit(c: char) -> bool {
    '0' <= c && c <= '9'
}

/// A character that `\d` may match: `\d` matches the Unicode decimal digits, which are the
/// ASCII digits and characters beyond ASCII.
pub open spec fn may_be_digit(c: char) -> bool {
    is_ascii_digit(c) || (c as u32) >= 0x80
}

/// The separators of a timestamp `dd:dd:dd.ddd` at index `i` of `l`.
pub open spec fn timestamp_separators_at(l: Seq<char>, i: int) -> bool {
    &&& 0 <= i && i + 12 <= l.len()
    &&& l[i + 2] == ':' && l[i + 5] == ':' && l[i + 8] == '.'
}

/// A timestamp written with ASCII digits at index `i` of `l`, such as `00:01:02.345`.
pub open spec fn ascii_timestamp_at(l: Seq<char>, i: int) -> bool {
    &&& timestamp_separators_at(l, i)
    &&& forall|k: int|
        0 <= k < 12 && k != 2 && k != 5 && k != 8 ==> is_ascii_digit(#[trigger] l[i + k])
}

/// The shape of a timestamp at index `i` of `l`, with ASCII digits or characters beyond ASCII
/// in the digit places.
pub open spec fn timestamp_shape_at(l: Seq<char>, i: int) -> bool {
    &&& timestamp_separators_at(l, i)
    &&& forall|k: int|
        0 <= k < 12 && k != 2 && k != 5 && k != 8 ==> may_be_digit(#[trigger] l[i + k])
}

/// Whether `l` holds a timestamp written with ASCII digits.
pub open spec fn has_ascii_timestamp(l: Seq<char>) -> bool {
    exists|i: int| ascii_timestamp_at(l, i)
}

/// Whether `l` holds the shape of a timestamp.
pub open spec fn has_timestamp_shape(l: Seq<char>) -> bool {
    exists|i: int| timestamp_shape_at(l, i)
}

/// A tag opens at `p` with its `c` at `q`: a `<`, then nothing but `/`, then `c`.
pub open spec fn tag_opens(l: Seq<char>, p: int, q: int) -> bool {
    &&& 0 <= p < q < l.len()
    &&& l[p] == '<' && l[q] == 'c'
    &&& forall|k: int| p < k < q ==> #[trigger] l[k] == '/'
}

/// A match of the tag pattern can start at `p`: a tag opens there and a `>` follows its `c`.
pub open spec fn tag_starts_at(l: Seq<char>, p: int) -> bool {
    exists|q: int, r: int| #![trigger tag_opens(l, p, q), l[r]] tag_opens(l, p, q) && q < r < l.len() && l[r] == '>'
}

/// Whether a match of the tag pattern starts somewhere in `l`.
pub open spec fn has_tag(l: Seq<char>) -> bool {
    exists|p: int| tag_starts_at(l, p)
}

/// The first index at which a match of the tag pattern starts.
pub open spec fn first_tag(l: Seq<char>) -> int {
    choose|p: int| tag_starts_at(l, p) && forall|p2: int| 0 <= p2 < p ==> !tag_starts_at(l, p2)
}

/// The index of the last `>` of `l`.
pub open spec fn last_close(l: Seq<char>) -> int {
    choose|r: int| 0 <= r < l.len() && l[r] == '>' && forall|r2: int| r < r2 < l.len() ==> l[r2] != '>'
}

/// `l` with the tag pattern's match removed, for a line without line feeds: the match runs from
/// the first place where a tag can start to the last `>`, since `.*` is greedy; after it no
/// `>` is left, so there is no other match.
pub open spec fn without_tag(l: Seq<char>) -> Seq<char> {
    if has_tag(l) {
        l.take(first_tag(l)) + l.skip(last_close(l) + 1)
    } else {
        l
    }
}

/// Trusted: compiles `pattern` with `regex::Regex::new` and answers `Regex::is_match` on
/// `haystack`; the result is the name `regex_is_match` of the two arguments. Of the timestamp
/// pattern it claims what `\d` (a Unicode decimal digit) implies: a timestamp written with
/// ASCII digits matches, and a match has the shape of a timestamp with ASCII digits or
/// characters beyond ASCII in the digit places. Nothing more is claimed of the matching.
#[verifier::external_body]
fn pattern_matches(pattern: &str, haystack: &str) -> (b: bool)
    ensures
        b == regex_is_match(pattern@, haystack@),
        pattern@ == TIMESTAMP_PATTERN@ ==> (has_ascii_timestamp(haystack@) ==> b),
        pattern@ == TIMESTAMP_PATTERN@ ==> (b ==> has_timestamp_shape(haystack@)),
{
    match regex::Regex::new(pattern) {
        Ok(re) => re.is_match(haystack),
        Err(_) => false,
    }
}

/// Trusted: compiles `pattern` with `regex::Regex::new` and returns `Regex::replace_all` of
/// `haystack` with `replacement`; the result is the name `regex_replace_all` of the three
/// arguments. Of the tag pattern with an empty replacement on a haystack without line feeds it
/// claims the leftmost-first, greedy result `without_tag`. Nothing more is claimed of the
/// replacing.
#[verifier::external_body]
fn pattern_replace_all(pattern: &str, haystack: &str, replacement: &str) -> (out: String)
    ensures
        out@ == regex_replace_all(pattern@, haystack@, replacement@),
        pattern@ == TAG_PATTERN@ && replacement@.len() == 0 && no_line_feed(haystack@) ==> out@
            == without_tag(haystack@),
{
    match regex::Regex::new(pattern) {
        Ok(re) => re.replace_all(haystack, replacement).into_owned(),
        Err(_) => haystack.to_string(),
    }
}

/// The lines after the first one that begins with the header prefix; none if no line does.
pub open spec fn after_header(ls: Seq<Seq<char>>) -> Seq<Seq<char>>
    decreases ls.len(),
{
    if ls.len() == 0 {
        Seq::empty()
    } else if starts_with(ls[0], HEADER_PREFIX@) {
        ls.drop_first()
    } else {
        after_header(ls.drop_first())
    }
}

/// Law: the header ends with the FIRST line that begins with `Language`: where line `h` is
/// that line, the lines kept are exactly the lines after it, later lines that begin with
/// `Language` included.
pub proof fn lemma_after_first_header(ls: Seq<Seq<char>>, h: int)
    requires
        0 <= h < ls.len(),
        starts_with(ls[h], HEADER_PREFIX@),
        forall|k: int| 0 <= k < h ==> !starts_with(#[trigger] ls[k], HEADER_PREFIX@),
    ensures
        after_header(ls) == ls.skip(h + 1),
    decreases h,
{
    if h > 0 {
        let rest = ls.drop_first();
        assert forall|k: int| 0 <= k < h - 1 implies !starts_with(#[trigger] rest[k], HEADER_PREFIX@) by {
            assert(rest[k] == ls[k + 1]);
        }
        assert(!starts_with(ls[0], HEADER_PREFIX@));
        lemma_after_first_header(rest, h - 1);
        assert(rest.skip(h) =~= ls.skip(h + 1));
    } else {
        assert(ls.drop_first() =~= ls.skip(1));
    }
}

/// Law: where no line begins with `Language`, no line is kept.
pub proof fn lemma_no_header(ls: Seq<Seq<char>>)
    requires
        forall|k: int| 0 <= k < ls.len() ==> !starts_with(#[trigger] ls[k], HEADER_PREFIX@),
    ensures
        after_header(ls) == Seq::<Seq<char>>::empty(),
    decreases ls.len(),
{
    if ls.len() > 0 {
        let rest = ls.drop_first();
        assert forall|k: int| 0 <= k < rest.len() implies !starts_with(#[trigger] rest[k], HEADER_PREFIX@) by {
            assert(rest[k] == ls[k + 1]);
        }
        assert(!starts_with(ls[0], HEADER_PREFIX@));
        lemma_no_header(rest);
    }
}

/// A caption line with its styling tags removed.
pub open spec fn untagged(l: Seq<char>) -> Seq<char> {
    regex_replace_all(TAG_PATTERN@, l, Seq::empty())
}

/// What the regular expressions make of a caption line: `None` for a timestamp line, else
/// the line with its tags removed.
pub open spec fn caption_result(l: Seq<char>) -> Option<Seq<char>> {
    if regex_is_match(TIMESTAMP_PATTERN@, l) {
        None
    } else {
        Some(untagged(l))
    }
}

/// The caption lines kept of `ps`: dropped lines (`None`) and blank lines are left out, and so
/// is a line equal to the line kept before it.
pub open spec fn kept_lines(ps: Seq<Option<Seq<char>>>) -> Seq<Seq<char>>
    decreases ps.len(),
{
    if ps.len() == 0 {
        Seq::empty()
    } else {
        let kept = kept_lines(ps.drop_last());
        match ps.last() {
            None => kept,
            Some(u) => if is_blank(u) || (kept.len() > 0 && kept.last() == u) {
                kept
            } else {
                kept.push(u)
            },
        }
    }
}

/// What is known of the regular expressions on a caption line: a line with an ASCII
/// timestamp is a timestamp line, a timestamp line has the shape of a timestamp, and any other
/// line loses exactly its tag match.
pub open spec fn caption_facts(l: Seq<char>) -> bool {
    &&& has_ascii_timestamp(l) ==> regex_is_match(TIMESTAMP_PATTERN@, l)
    &&& regex_is_match(TIMESTAMP_PATTERN@, l) ==> has_timestamp_shape(l)
    &&& !regex_is_match(TIMESTAMP_PATTERN@, l) ==> untagged(l) == without_tag(l)
}

/// The cleaned transcript: the caption lines after the header, as the regular expressions
/// leave them, kept as `kept_lines` says and separated by single spaces.
pub open spec fn spec_clean_vtt(transcript: Seq<char>) -> Seq<char> {
    join(
        kept_lines(after_header(lines(transcript)).map_values(|l: Seq<char>| caption_result(l))),
        seq![' '],
    )
}

/// The index just past the first line that begins with the header prefix, or the number of
/// lines if none does.
fn header_end(ls: &Vec<Vec<char>>, prefix: &Vec<char>) -> (i: usize)
    requires
        prefix@ == HEADER_PREFIX@,
    ensures
        i <= ls@.len(),
        views(ls@).skip(i as int) == after_header(views(ls@)),
{
    let mut i: usize = 0;
    assert(views(ls@).skip(0) =~= views(ls@));
    while i < ls.len()
        invariant
            i <= ls@.len(),
            prefix@ == HEADER_PREFIX@,
            after_header(views(ls@).skip(i as int)) == after_header(views(ls@)),
        decreases ls@.len() - i,
    {
        let ghost rest = views(ls@).skip(i as int);
        assert(rest[0] == ls@[i as int]@);
        assert(rest.drop_first() =~= views(ls@).skip(i + 1));
        if has_prefix(ls[i].as_slice(), prefix.as_slice()) {
            return i + 1;
        }
        i = i + 1;
    }
    assert(views(ls@).skip(i as int) =~= Seq::<Seq<char>>::empty());
    i
}

/// The lines of `transcript` after the first one that begins with `Language`; none if no
/// line does.
pub fn lines_after_header(transcript: &str) -> (out: Vec<String>)
    ensures
        out.deep_view() == after_header(lines(transcript@)),
        forall|i: int| 0 <= i < out@.len() ==> no_line_feed(#[trigger] out.deep_view()[i]),
{
    let cs = to_chars(transcript);
    let ls = split_lines(cs.as_slice());
    let prefix = to_chars(HEADER_PREFIX);
    let start = header_end(&ls, &prefix);
    let ghost rest = after_header(views(ls@));
    let mut out: Vec<String> = Vec::new();
    let mut j: usize = start;
    while j < ls.len()
        invariant
            start <= j <= ls@.len(),
            views(ls@).skip(start as int) == rest,
            out.deep_view() == rest.take(j - start),
            forall|i: int| 0 <= i < ls@.len() ==> no_line_feed(#[trigger] ls@[i]@),
        decreases ls@.len() - j,
    {
        let ghost before = out.deep_view();
        let line = from_chars(ls[j].as_slice());
        out.push(line);
        assert(rest[j - start] == views(ls@)[j as int]);
        assert(out.deep_view() =~= before.push(line@));
        assert(out.deep_view() =~= rest.take(j - start + 1));
        j = j + 1;
    }
    assert(rest.take(ls@.len() - start) =~= rest);
    assert forall|i: int| 0 <= i < out@.len() implies no_line_feed(#[trigger] out.deep_view()[i]) by {
        assert(out.deep_view()[i] == views(ls@)[start + i]);
        assert(no_line_feed(ls@[start + i]@));
    }
    out
}

/// Joins the caption lines that remain with single spaces: `None` stands for a dropped line;
/// blank lines and a line equal to the line kept before it are left out.
pub fn join_captions(ps: &[Option<String>]) -> (out: String)
    ensures
        out@ == join(kept_lines(ps.deep_view()), seq![' ']),
{
    let mut kept: Vec<Vec<char>> = Vec::new();
    let mut j: usize = 0;
    while j < ps.len()
        invariant
            j <= ps@.len(),
            views(kept@) == kept_lines(ps.deep_view().take(j as int)),
        decreases ps@.len() - j,
    {
        assert(ps.deep_view().take(j + 1).drop_last() =~= ps.deep_view().take(j as int));
        assert(ps.deep_view().take(j + 1).last() == ps@[j as int].deep_view());
        match &ps[j] {
            None => {},
            Some(u) => {
                let rc = to_chars(u.as_str());
                if !blank(rc.as_slice()) {
                    let n = kept.len();
                    let repeated = n > 0 && chars_eq(kept[n - 1].as_slice(), rc.as_slice());
                    if !repeated {
                        let ghost before = views(kept@);
                        kept.push(rc);
                        assert(views(kept@) =~= before.push(rc@));
                    }
                }
            },
        }
        j = j + 1;
    }
    assert(ps.deep_view().take(ps@.len() as int) =~= ps.deep_view());
    let sep: Vec<char> = vec![' '];
    assert(sep@ =~= seq![' ']);
    let joined = join_chars(kept.as_slice(), sep.as_slice());
    from_chars(joined.as_slice())
}

/// Removes timestamps, styling tags and repeated lines from WebVTT captions, keeping the
/// lines after the header and joining them with single spaces.
pub fn clean_vtt(transcript: &str) -> (out: String)
    ensures
        out@ == spec_clean_vtt(transcript@),
        forall|i: int|
            0 <= i < after_header(lines(transcript@)).len() ==> caption_facts(
                #[trigger] after_header(lines(transcript@))[i],
            ),
        (forall|i: int|
            0 <= i < after_header(lines(transcript@)).len() ==> !has_timestamp_shape(
                #[trigger] after_header(lines(transcript@))[i],
            )) ==> out@ == join(
            kept_lines(
                after_header(lines(transcript@)).map_values(|l: Seq<char>| Some(without_tag(l))),
            ),
            seq![' '],
        ),
{
    let ls = lines_after_header(transcript);
    let ghost rest = after_header(lines(transcript@));
    let ghost results = rest.map_values(|l: Seq<char>| caption_result(l));
    let mut ps: Vec<Option<String>> = Vec::new();
    let mut j: usize = 0;
    while j < ls.len()
        invariant
            j <= ls@.len(),
            ls.deep_view() == rest,
            forall|i: int| 0 <= i < ls@.len() ==> no_line_feed(#[trigger] ls.deep_view()[i]),
            results == rest.map_values(|l: Seq<char>| caption_result(l)),
            ps.deep_view() == results.take(j as int),
            forall|i: int| 0 <= i < j ==> caption_facts(#[trigger] rest[i]),
        decreases ls@.len() - j,
    {
        let ghost l = ls@[j as int]@;
        assert(rest[j as int] == l);
        assert(ls.deep_view()[j as int] == l);
        let line = ls[j].as_str();
        let r = if pattern_matches(TIMESTAMP_PATTERN, line) {
            None
        } else {
            let replaced = pattern_replace_all(TAG_PATTERN, line, "");
            proof {
                reveal_strlit("");
                assert(""@ =~= Seq::<char>::empty());
            }
            Some(replaced)
        };
        assert(caption_facts(l));
        assert(r.deep_view() == results[j as int]);
        let ghost before = ps.deep_view();
        ps.push(r);
        assert(ps.deep_view() =~= before.push(results[j as int]));
        assert(ps.deep_view() =~= results.take(j + 1));
        j = j + 1;
    }
    assert(results.take(ls@.len() as int) =~= results);
    proof {
        if forall|i: int| 0 <= i < rest.len() ==> !has_timestamp_shape(#[trigger] rest[i]) {
            assert(results =~= rest.map_values(|l: Seq<char>| Some(without_tag(l)))) by {
                assert forall|i: int| 0 <= i < rest.len() implies results[i] == Some(
                    without_tag(rest[i]),
                ) by {
                    assert(caption_facts(rest[i]));
                    assert(!has_timestamp_shape(rest[i]));
                }
            }
        }
    }
    join_captions(ps.as_slice())
}

} // verus!
