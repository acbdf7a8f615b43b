//! Character-level text handling on which the library's string processing is built:
//! lines, ASCII-whitespace separated words, joining, whitespace tests and decimal numbers.
use vstd::prelude::*;

verus! {

broadcast use vstd::string::group_string_axioms;

/// Appends one character to a string.
/// Trusted: `String::push`, documented to append the given char to the end of the string.
#[verifier::external_body]
fn push_char(s: &mut String, c: char)
    ensures
        final(s)@ == old(s)@.push(c),
{
    s.push(c);
}

/// The characters of `s`, in order.
pub fn to_chars(s: &str) -> (out: Vec<char>)
    ensures
        out@ == s@,
{
    let mut out: Vec<char> = Vec::new();
    for c in it: s.chars()
        invariant
            out@ == it.seq().take(it.index() as int),
            it.seq() == s@,
    {
        out.push(c);
    }
    out
}

/// The string made of the characters of `cs`, in order.
pub fn from_chars(cs: &[char]) -> (out: String)
    ensures
        out@ == cs@,
{
    let mut out = String::new();
    let mut i: usize = 0;
    while i < cs.len()
        invariant
            i <= cs@.len(),
            out@ == cs@.take(i as int),
        decreases cs@.len() - i,
    {
        push_char(&mut out, cs[i]);
        assert(cs@.take(i + 1) =~= cs@.take(i as int).push(cs@[i as int]));
        i = i + 1;
    }
    assert(cs@.take(cs@.len() as int) =~= cs@);
    out
}

/// The views of a sequence of character vectors.
pub open spec fn views(vs: Seq<Vec<char>>) -> Seq<Seq<char>> {
    vs.map_values(|v: Vec<char>| v@)
}

/// `parts` separated by `sep`.
pub open spec fn join(parts: Seq<Seq<char>>, sep: Seq<char>) -> Seq<char>
    decreases parts.len(),
{
    if parts.len() == 0 {
        Seq::empty()
    } else if parts.len() == 1 {
        parts[0]
    } else {
        join(parts.drop_last(), sep) + sep + parts.last()
    }
}

/// The characters of `parts` separated by `sep`.
pub fn join_chars(parts: &[Vec<char>], sep: &[char]) -> (out: Vec<char>)
    ensures
        out@ == join(views(parts@), sep@),
{
    let mut out: Vec<char> = Vec::new();
    let mut i: usize = 0;
    while i < parts.len()
        invariant
            i <= parts@.len(),
            out@ == join(views(parts@.take(i as int)), sep@),
        decreases parts@.len() - i,
    {
        let ghost before = out@;
        if i > 0 {
            let mut k: usize = 0;
            while k < sep.len()
                invariant
                    k <= sep@.len(),
                    out@ == before + sep@.take(k as int),
                decreases sep@.len() - k,
            {
                out.push(sep[k]);
                assert(sep@.take(k + 1) =~= sep@.take(k as int).push(sep@[k as int]));
                k = k + 1;
            }
            assert(sep@.take(sep@.len() as int) =~= sep@);
        }
        let ghost middle = out@;
        let part = &parts[i];
        let mut j: usize = 0;
        while j < part.len()
            invariant
                j <= part@.len(),
                out@ == middle + part@.take(j as int),
            decreases part@.len() - j,
        {
            out.push(part[j]);
            assert(part@.take(j + 1) =~= part@.take(j as int).push(part@[j as int]));
            j = j + 1;
        }
        assert(part@.take(part@.len() as int) =~= part@);
        assert(views(parts@.take(i + 1)).drop_last() =~= views(parts@.take(i as int)));
        if i == 0 {
            assert(views(parts@.take(0)) =~= Seq::<Seq<char>>::empty());
        }
        i = i + 1;
    }
    assert(parts@.take(parts@.len() as int) =~= parts@);
    out
}

/// ASCII whitespace as `u8::is_ascii_whitespace` has it: space, tab, line feed, form feed and
/// carriage return.
pub open spec fn is_ascii_whitespace(c: char) -> bool {
    c == ' ' || c == '\t' || c == '\n' || c == '\x0C' || c == '\r'
}

/// The characters after the last ASCII whitespace of `s`.
pub open spec fn open_word(s: Seq<char>) -> Seq<char>
    decreases s.len(),
{
    if s.len() == 0 {
        Seq::empty()
    } else if is_ascii_whitespace(s.last()) {
        Seq::empty()
    } else {
        open_word(s.drop_last()).push(s.last())
    }
}

/// The words of `s` that are followed by ASCII whitespace.
pub open spec fn closed_words(s: Seq<char>) -> Seq<Seq<char>>
    decreases s.len(),
{
    if s.len() == 0 {
        Seq::empty()
    } else if is_ascii_whitespace(s.last()) {
        if open_word(s.drop_last()).len() > 0 {
            closed_words(s.drop_last()).push(open_word(s.drop_last()))
        } else {
            closed_words(s.drop_last())
        }
    } else {
        closed_words(s.drop_last())
    }
}

/// The non-empty runs of non-whitespace characters of `s`, as `str::split_ascii_whitespace`
/// yields them.
pub open spec fn words(s: Seq<char>) -> Seq<Seq<char>> {
    if open_word(s).len() > 0 {
        closed_words(s).push(open_word(s))
    } else {
        closed_words(s)
    }
}

/// A word: non-empty, with no ASCII whitespace in it.
pub open spec fn is_word(w: Seq<char>) -> bool {
    &&& w.len() > 0
    &&& forall|i: int| 0 <= i < w.len() ==> !is_ascii_whitespace(#[trigger] w[i])
}

/// Appending characters other than whitespace extends the open word and closes none.
proof fn lemma_words_append_chars(s: Seq<char>, w: Seq<char>)
    requires
        forall|i: int| 0 <= i < w.len() ==> !is_ascii_whitespace(#[trigger] w[i]),
    ensures
        open_word(s + w) == open_word(s) + w,
        closed_words(s + w) == closed_words(s),
    decreases w.len(),
{
    if w.len() == 0 {
        assert(s + w =~= s);
        assert(open_word(s) + w =~= open_word(s));
    } else {
        let w0 = w.drop_last();
        lemma_words_append_chars(s, w0);
        assert((s + w).drop_last() =~= s + w0);
        assert((s + w).last() == w[w.len() - 1]);
        assert(open_word(s) + w =~= (open_word(s) + w0).push(w.last()));
    }
}

/// The words of the first `n` words of `ws` joined by spaces: all but the last are closed.
proof fn lemma_words_of_join_prefix(ws: Seq<Seq<char>>, n: nat)
    requires
        1 <= n <= ws.len(),
        forall|i: int| 0 <= i < ws.len() ==> is_word(#[trigger] ws[i]),
    ensures
        closed_words(join(ws.take(n as int), seq![' '])) == ws.take(n - 1),
        open_word(join(ws.take(n as int), seq![' '])) == ws[n - 1],
    decreases n,
{
    let w = ws[n - 1];
    assert(is_word(w));
    if n == 1 {
        assert(ws.take(1).len() == 1);
        assert(join(ws.take(1), seq![' ']) == ws.take(1)[0]);
        lemma_words_append_chars(Seq::empty(), w);
        assert(Seq::<char>::empty() + w =~= w);
        assert(ws.take(0) =~= Seq::<Seq<char>>::empty());
        assert(Seq::<char>::empty() + w =~= w);
    } else {
        lemma_words_of_join_prefix(ws, (n - 1) as nat);
        let prev = join(ws.take(n - 1), seq![' ']);
        assert(ws.take(n as int).drop_last() =~= ws.take(n - 1));
        assert(join(ws.take(n as int), seq![' ']) == prev + seq![' '] + w);
        let spaced = prev + seq![' '];
        assert(spaced.drop_last() =~= prev);
        assert(spaced.last() == ' ');
        assert(open_word(spaced) == Seq::<char>::empty());
        assert(closed_words(spaced) == ws.take(n - 2).push(ws[n - 2]));
        assert(ws.take(n - 2).push(ws[n - 2]) =~= ws.take(n - 1));
        lemma_words_append_chars(spaced, w);
        assert(Seq::<char>::empty() + w =~= w);
    }
}

/// Law: splitting words joined by single spaces gives back the words.
pub proof fn lemma_words_of_join(ws: Seq<Seq<char>>)
    requires
        forall|i: int| 0 <= i < ws.len() ==> is_word(#[trigger] ws[i]),
    ensures
        words(join(ws, seq![' '])) == ws,
{
    if ws.len() > 0 {
        lemma_words_of_join_prefix(ws, ws.len());
        assert(ws.take(ws.len() as int) =~= ws);
        assert(ws.take(ws.len() - 1).push(ws[ws.len() - 1]) =~= ws);
    }
}

/// The open word of `s` holds no whitespace, and every closed word is a word.
proof fn lemma_words_are_words_parts(s: Seq<char>)
    ensures
        forall|i: int| 0 <= i < open_word(s).len() ==> !is_ascii_whitespace(#[trigger] open_word(s)[i]),
        forall|i: int| 0 <= i < closed_words(s).len() ==> is_word(#[trigger] closed_words(s)[i]),
    decreases s.len(),
{
    if s.len() > 0 {
        let d = s.drop_last();
        lemma_words_are_words_parts(d);
        if is_ascii_whitespace(s.last()) && open_word(d).len() > 0 {
            assert(is_word(open_word(d)));
            assert forall|i: int| 0 <= i < closed_words(s).len() implies is_word(
                #[trigger] closed_words(s)[i],
            ) by {
                if i < closed_words(d).len() {
                    assert(closed_words(s)[i] == closed_words(d)[i]);
                }
            }
        }
    }
}

/// Law: every word that `words` yields is a word.
pub proof fn lemma_words_are_words(s: Seq<char>)
    ensures
        forall|i: int| 0 <= i < words(s).len() ==> is_word(#[trigger] words(s)[i]),
{
    lemma_words_are_words_parts(s);
    assert forall|i: int| 0 <= i < words(s).len() implies is_word(#[trigger] words(s)[i]) by {
        if open_word(s).len() > 0 && i == closed_words(s).len() {
            assert(words(s)[i] == open_word(s));
        } else {
            assert(words(s)[i] == closed_words(s)[i]);
        }
    }
}

/// Whether `c` is ASCII whitespace.
pub fn ascii_whitespace(c: char) -> (b: bool)
    ensures
        b == is_ascii_whitespace(c),
{
    c == ' ' || c == '\t' || c == '\n' || c == '\x0C' || c == '\r'
}

/// The words of `s`: its maximal runs of characters other than ASCII whitespace.
pub fn split_words(s: &[char]) -> (out: Vec<Vec<char>>)
    ensures
        views(out@) == words(s@),
{
    let mut done: Vec<Vec<char>> = Vec::new();
    let mut cur: Vec<char> = Vec::new();
    let mut i: usize = 0;
    while i < s.len()
        invariant
            i <= s@.len(),
            views(done@) == closed_words(s@.take(i as int)),
            cur@ == open_word(s@.take(i as int)),
        decreases s@.len() - i,
    {
        let c = s[i];
        assert(s@.take(i + 1).drop_last() =~= s@.take(i as int));
        if ascii_whitespace(c) {
            if cur.len() > 0 {
                let w = cur;
                done.push(w);
                assert(views(done@) =~= closed_words(s@.take(i as int)).push(w@));
            }
            cur = Vec::new();
            assert(cur@ =~= Seq::<char>::empty());
        } else {
            cur.push(c);
        }
        i = i + 1;
    }
    assert(s@.take(s@.len() as int) =~= s@);
    if cur.len() > 0 {
        let w = cur;
        done.push(w);
        assert(views(done@) =~= closed_words(s@).push(w@));
    }
    done
}

/// `l` without one trailing carriage return.
pub open spec fn strip_cr(l: Seq<char>) -> Seq<char> {
    if l.len() > 0 && l.last() == '\r' {
        l.drop_last()
    } else {
        l
    }
}

/// The characters after the last line feed of `s`.
pub open spec fn open_line(s: Seq<char>) -> Seq<char>
    decreases s.len(),
{
    if s.len() == 0 {
        Seq::empty()
    } else if s.last() == '\n' {
        Seq::empty()
    } else {
        open_line(s.drop_last()).push(s.last())
    }
}

/// The lines of `s` that end with a line feed, without it and without a carriage return
/// right before it.
pub open spec fn closed_lines(s: Seq<char>) -> Seq<Seq<char>>
    decreases s.len(),
{
    if s.len() == 0 {
        Seq::empty()
    } else if s.last() == '\n' {
        closed_lines(s.drop_last()).push(strip_cr(open_line(s.drop_last())))
    } else {
        closed_lines(s.drop_last())
    }
}

/// The lines of `s` as `str::lines` yields them: split at `\n` or `\r\n`, with no empty
/// line after a final line ending.
pub open spec fn lines(s: Seq<char>) -> Seq<Seq<char>> {
    if open_line(s).len() > 0 {
        closed_lines(s).push(open_line(s))
    } else {
        closed_lines(s)
    }
}

/// Whether `l` holds no line feed.
pub open spec fn no_line_feed(l: Seq<char>) -> bool {
    forall|k: int| 0 <= k < l.len() ==> #[trigger] l[k] != '\n'
}

/// Drops a trailing carriage return.
fn strip_carriage_return(l: Vec<char>) -> (out: Vec<char>)
    ensures
        out@ == strip_cr(l@),
{
    let mut l = l;
    if l.len() > 0 && l[l.len() - 1] == '\r' {
        l.pop();
    }
    l
}

/// The lines of `s`, as `str::lines` yields them.
pub fn split_lines(s: &[char]) -> (out: Vec<Vec<char>>)
    ensures
        views(out@) == lines(s@),
        forall|i: int| 0 <= i < out@.len() ==> no_line_feed(#[trigger] out@[i]@),
{
    let mut done: Vec<Vec<char>> = Vec::new();
    let mut cur: Vec<char> = Vec::new();
    let mut i: usize = 0;
    while i < s.len()
        invariant
            i <= s@.len(),
            views(done@) == closed_lines(s@.take(i as int)),
            cur@ == open_line(s@.take(i as int)),
            forall|j: int| 0 <= j < done@.len() ==> no_line_feed(#[trigger] done@[j]@),
            no_line_feed(cur@),
        decreases s@.len() - i,
    {
        let c = s[i];
        assert(s@.take(i + 1).drop_last() =~= s@.take(i as int));
        if c == '\n' {
            let ghost before = cur@;
            let w = strip_carriage_return(cur);
            assert(no_line_feed(w@)) by {
                assert forall|k: int| 0 <= k < w@.len() implies #[trigger] w@[k] != '\n' by {
                    assert(w@[k] == before[k]);
                }
            }
            done.push(w);
            assert(views(done@) =~= closed_lines(s@.take(i as int)).push(w@));
            cur = Vec::new();
            assert(cur@ =~= Seq::<char>::empty());
        } else {
            cur.push(c);
        }
        i = i + 1;
    }
    assert(s@.take(s@.len() as int) =~= s@);
    if cur.len() > 0 {
        let w = cur;
        done.push(w);
        assert(views(done@) =~= closed_lines(s@).push(w@));
    }
    done
}

/// Whitespace as `char::is_whitespace` has it: the characters with the Unicode
/// `White_Space` property.
pub open spec fn is_whitespace(c: char) -> bool {
    ||| ('\u{9}' <= c && c <= '\u{d}')
    ||| c == ' '
    ||| c == '\u{85}'
    ||| c == '\u{a0}'
    ||| c == '\u{1680}'
    ||| ('\u{2000}' <= c && c <= '\u{200a}')
    ||| c == '\u{2028}'
    ||| c == '\u{2029}'
    ||| c == '\u{202f}'
    ||| c == '\u{205f}'
    ||| c == '\u{3000}'
}

/// Whether `c` is Unicode whitespace.
pub fn whitespace(c: char) -> (b: bool)
    ensures
        b == is_whitespace(c),
{
    ('\u{9}' <= c && c <= '\u{d}') || c == ' ' || c == '\u{85}' || c == '\u{a0}' || c
        == '\u{1680}' || ('\u{2000}' <= c && c <= '\u{200a}') || c == '\u{2028}' || c
        == '\u{2029}' || c == '\u{202f}' || c == '\u{205f}' || c == '\u{3000}'
}

/// Whether `s` holds whitespace only, so that trimming it leaves nothing.
pub open spec fn is_blank(s: Seq<char>) -> bool {
    forall|i: int| 0 <= i < s.len() ==> is_whitespace(#[trigger] s[i])
}

/// Whether `s` holds whitespace only.
pub fn blank(s: &[char]) -> (b: bool)
    ensures
        b == is_blank(s@),
{
    let mut i: usize = 0;
    while i < s.len()
        invariant
            i <= s@.len(),
            forall|j: int| 0 <= j < i ==> is_whitespace(#[trigger] s@[j]),
        decreases s@.len() - i,
    {
        if !whitespace(s[i]) {
            return false;
        }
        i = i + 1;
    }
    true
}

/// Whether `a` and `b` hold the same characters.
pub fn chars_eq(a: &[char], b: &[char]) -> (r: bool)
    ensures
        r == (a@ == b@),
{
    if a.len() != b.len() {
        return false;
    }
    let mut i: usize = 0;
    while i < a.len()
        invariant
            i <= a@.len(),
            a@.len() == b@.len(),
            forall|j: int| 0 <= j < i ==> a@[j] == b@[j],
        decreases a@.len() - i,
    {
        if a[i] != b[i] {
            return false;
        }
        i = i + 1;
    }
    assert(a@ =~= b@);
    true
}

/// Whether `s` begins with `p`.
pub open spec fn starts_with(s: Seq<char>, p: Seq<char>) -> bool {
    p.len() <= s.len() && s.take(p.len() as int) == p
}

/// Whether `s` begins with `p`.
pub fn has_prefix(s: &[char], p: &[char]) -> (r: bool)
    ensures
        r == starts_with(s@, p@),
{
    if p.len() > s.len() {
        return false;
    }
    let mut i: usize = 0;
    while i < p.len()
        invariant
            i <= p@.len() <= s@.len(),
            forall|j: int| 0 <= j < i ==> s@[j] == p@[j],
        decreases p@.len() - i,
    {
        if s[i] != p[i] {
            assert(s@.take(p@.len() as int)[i as int] != p@[i as int]);
            return false;
        }
        i = i + 1;
    }
    assert(s@.take(p@.len() as int) =~= p@);
    true
}

/// Whether `p` occurs in `s` starting at `i`.
pub open spec fn occurs_at(s: Seq<char>, p: Seq<char>, i: int) -> bool {
    0 <= i && i + p.len() <= s.len() && s.subrange(i, i + p.len()) == p
}

/// Whether `p` occurs in `s`.
pub open spec fn contains(s: Seq<char>, p: Seq<char>) -> bool {
    exists|i: int| occurs_at(s, p, i)
}

/// Whether `p` occurs in `s` at `i`.
fn matches_at(s: &[char], p: &[char], i: usize) -> (r: bool)
    requires
        i <= s@.len(),
    ensures
        r == occurs_at(s@, p@, i as int),
{
    if p.len() > s.len() - i {
        return false;
    }
    let mut k: usize = 0;
    while k < p.len()
        invariant
            i + p@.len() <= s@.len(),
            s@.len() == s.len(),
            k <= p@.len(),
            forall|j: int| 0 <= j < k ==> s@[i + j] == p@[j],
        decreases p@.len() - k,
    {
        if s[i + k] != p[k] {
            assert(s@.subrange(i as int, i + p@.len())[k as int] != p@[k as int]);
            return false;
        }
        k = k + 1;
    }
    assert(s@.subrange(i as int, i + p@.len()) =~= p@);
    true
}

/// Whether `p` occurs in `s`.
pub fn find(s: &[char], p: &[char]) -> (r: bool)
    ensures
        r == contains(s@, p@),
{
    let mut i: usize = 0;
    loop
        invariant
            i <= s@.len(),
            forall|j: int| 0 <= j < i ==> !occurs_at(s@, p@, j),
        decreases s@.len() - i,
    {
        if matches_at(s, p, i) {
            return true;
        }
        if i == s.len() {
            assert forall|j: int| !occurs_at(s@, p@, j) by {
                if 0 <= j < i {
                }
            }
            return false;
        }
        i = i + 1;
    }
}

/// `s` with every occurrence of `pat` replaced by `rep`, scanning from the left and not
/// overlapping, as `str::replace` does for a non-empty pattern.
pub open spec fn replace_all(s: Seq<char>, pat: Seq<char>, rep: Seq<char>) -> Seq<char>
    decreases s.len(),
{
    if s.len() == 0 {
        Seq::empty()
    } else if pat.len() > 0 && starts_with(s, pat) {
        rep + replace_all(s.skip(pat.len() as int), pat, rep)
    } else {
        seq![s[0]] + replace_all(s.drop_first(), pat, rep)
    }
}

/// `s` with every occurrence of the non-empty `pat` replaced by `rep`.
pub fn replace(s: &str, pat: &str, rep: &str) -> (out: String)
    requires
        pat@.len() > 0,
    ensures
        out@ == replace_all(s@, pat@, rep@),
{
    let cs = to_chars(s);
    let ps = to_chars(pat);
    let rs = to_chars(rep);
    let mut out: Vec<char> = Vec::new();
    let mut i: usize = 0;
    assert(cs@.skip(0) =~= cs@);
    assert(out@ + replace_all(cs@.skip(0), ps@, rs@) =~= replace_all(s@, pat@, rep@));
    while i < cs.len()
        invariant
            i <= cs@.len(),
            cs@ == s@,
            ps@ == pat@,
            rs@ == rep@,
            pat@.len() > 0,
            out@ + replace_all(cs@.skip(i as int), ps@, rs@) == replace_all(s@, pat@, rep@),
        decreases cs@.len() - i,
    {
        let ghost rest = cs@.skip(i as int);
        if matches_at(cs.as_slice(), ps.as_slice(), i) {
            assert(rest.take(ps@.len() as int) =~= cs@.subrange(i as int, i + ps@.len()));
            assert(rest.skip(ps@.len() as int) =~= cs@.skip(i + ps@.len()));
            let mut k: usize = 0;
            let ghost before = out@;
            while k < rs.len()
                invariant
                    k <= rs@.len(),
                    out@ == before + rs@.take(k as int),
                decreases rs@.len() - k,
            {
                out.push(rs[k]);
                assert(rs@.take(k + 1) =~= rs@.take(k as int).push(rs@[k as int]));
                k = k + 1;
            }
            assert(rs@.take(rs@.len() as int) =~= rs@);
            assert(before + rs@ + replace_all(cs@.skip(i + ps@.len()), ps@, rs@) =~= out@
                + replace_all(cs@.skip(i + ps@.len()), ps@, rs@));
            i = i + ps.len();
        } else {
            proof {
                if starts_with(rest, ps@) {
                    assert(rest.take(ps@.len() as int) =~= cs@.subrange(i as int, i + ps@.len()));
                }
            }
            assert(rest.drop_first() =~= cs@.skip(i + 1));
            let ghost before = out@;
            out.push(cs[i]);
            assert(before + (seq![cs@[i as int]] + replace_all(cs@.skip(i + 1), ps@, rs@)) =~= out@
                + replace_all(cs@.skip(i + 1), ps@, rs@));
            i = i + 1;
        }
    }
    assert(cs@.skip(i as int) =~= Seq::<char>::empty());
    assert(out@ + replace_all(cs@.skip(i as int), ps@, rs@) =~= out@);
    from_chars(out.as_slice())
}

/// The digit that stands for `d`.
pub open spec fn digit_char(d: nat) -> char {
    if d == 0 {
        '0'
    } else if d == 1 {
        '1'
    } else if d == 2 {
        '2'
    } else if d == 3 {
        '3'
    } else if d == 4 {
        '4'
    } else if d == 5 {
        '5'
    } else if d == 6 {
        '6'
    } else if d == 7 {
        '7'
    } else if d == 8 {
        '8'
    } else {
        '9'
    }
}

/// The decimal notation of `n`, without leading zeros, as `to_string` writes an integer.
pub open spec fn decimal(n: nat) -> Seq<char>
    decreases n,
{
    if n < 10 {
        seq![digit_char(n)]
    } else {
        decimal(n / 10).push(digit_char(n % 10))
    }
}

/// A character among `0` to `9`.
pub open spec fn is_digit_char(c: char) -> bool {
    '0' <= c && c <= '9'
}

/// The number that the decimal digits `s` write, most significant first.
pub open spec fn digits_value(s: Seq<char>) -> int
    decreases s.len(),
{
    if s.len() == 0 {
        0
    } else {
        digits_value(s.drop_last()) * 10 + (s.last() as int - '0' as int)
    }
}

/// The digit for `d` is the `d`-th character after `0`.
proof fn lemma_digit_char(d: nat)
    requires
        d < 10,
    ensures
        is_digit_char(digit_char(d)),
        digit_char(d) as int - '0' as int == d,
{
}

/// Law: `decimal(n)` is a non-empty run of the digits `0` to `9` that writes `n`, and it
/// starts with `0` only where `n` is 0.
pub proof fn lemma_decimal(n: nat)
    ensures
        decimal(n).len() >= 1,
        forall|i: int| 0 <= i < decimal(n).len() ==> is_digit_char(#[trigger] decimal(n)[i]),
        digits_value(decimal(n)) == n,
        n > 0 ==> decimal(n)[0] != '0',
    decreases n,
{
    if n < 10 {
        lemma_digit_char(n);
        let d = decimal(n);
        assert(d.drop_last() =~= Seq::<char>::empty());
        assert(d.last() == digit_char(n));
        assert(digits_value(d) == digits_value(d.drop_last()) * 10 + (d.last() as int - '0' as int));
    } else {
        lemma_decimal(n / 10);
        lemma_digit_char(n % 10);
        let d = decimal(n);
        assert(d.drop_last() =~= decimal(n / 10));
        assert(d[0] == decimal(n / 10)[0]);
        assert forall|i: int| 0 <= i < d.len() implies is_digit_char(#[trigger] d[i]) by {
            if i < d.len() - 1 {
                assert(d[i] == decimal(n / 10)[i]);
            }
        }
        assert(d.last() == digit_char(n % 10));
        assert(digits_value(d) == digits_value(d.drop_last()) * 10 + (d.last() as int - '0' as int));
        assert((n / 10) * 10 + n % 10 == n);
    }
}

/// Where part `i` of `parts` begins once they are joined with a separator of `sep_len`
/// characters.
pub open spec fn join_offset(parts: Seq<Seq<char>>, sep_len: nat, i: nat) -> int
    decreases i,
{
    if i == 0 {
        0
    } else {
        join_offset(parts, sep_len, (i - 1) as nat) + parts[i - 1].len() + sep_len
    }
}

/// The offsets of the parts do not depend on the parts after them.
proof fn lemma_join_offset_prefix(parts: Seq<Seq<char>>, m: int, sep_len: nat, i: nat)
    requires
        0 <= m <= parts.len(),
        i <= m,
    ensures
        join_offset(parts.take(m), sep_len, i) == join_offset(parts, sep_len, i),
    decreases i,
{
    if i > 0 {
        lemma_join_offset_prefix(parts, m, sep_len, (i - 1) as nat);
        assert(parts.take(m)[i - 1] == parts[i - 1]);
    }
}

/// Offsets grow: a part and the separator after it end no later than any later offset.
pub proof fn lemma_join_offset_grows(parts: Seq<Seq<char>>, sep_len: nat, i: nat, k: nat)
    requires
        i < k,
    ensures
        join_offset(parts, sep_len, i) + parts[i as int].len() + sep_len <= join_offset(parts, sep_len, k),
        join_offset(parts, sep_len, i) >= 0,
    decreases k,
{
    if k > i + 1 {
        lemma_join_offset_grows(parts, sep_len, i, (k - 1) as nat);
    } else {
        lemma_join_offset_nonneg(parts, sep_len, i);
    }
}

proof fn lemma_join_offset_nonneg(parts: Seq<Seq<char>>, sep_len: nat, i: nat)
    ensures
        join_offset(parts, sep_len, i) >= 0,
    decreases i,
{
    if i > 0 {
        lemma_join_offset_nonneg(parts, sep_len, (i - 1) as nat);
    }
}

/// Law: in `join(parts, sep)` every part stands in full at its offset, the separator stands
/// between each two neighbouring parts, and nothing else is there.
pub proof fn lemma_join_parts(parts: Seq<Seq<char>>, sep: Seq<char>)
    ensures
        forall|i: int|
            0 <= i < parts.len() ==> #[trigger] join(parts, sep).subrange(
                join_offset(parts, sep.len(), i as nat) as int,
                join_offset(parts, sep.len(), i as nat) + parts[i].len(),
            ) == parts[i],
        forall|i: int|
            0 <= i < parts.len() - 1 ==> #[trigger] join(parts, sep).subrange(
                join_offset(parts, sep.len(), i as nat) + parts[i].len(),
                join_offset(parts, sep.len(), (i + 1) as nat) as int,
            ) == sep,
        parts.len() == 0 ==> join(parts, sep).len() == 0,
        parts.len() > 0 ==> join(parts, sep).len() == join_offset(
            parts,
            sep.len(),
            (parts.len() - 1) as nat,
        ) + parts.last().len(),
    decreases parts.len(),
{
    let j = join(parts, sep);
    let n = parts.len();
    if n == 1 {
        assert(j == parts[0]);
        assert(j.subrange(0, parts[0].len() as int) =~= parts[0]);
    } else if n > 1 {
        let init = parts.drop_last();
        lemma_join_parts(init, sep);
        let ji = join(init, sep);
        assert(j == ji + sep + parts.last());
        assert forall|i: int| 0 <= i <= n - 1 implies #[trigger] join_offset(init, sep.len(), i as nat)
            == join_offset(parts, sep.len(), i as nat) by {
            assert(init =~= parts.take(n - 1));
            lemma_join_offset_prefix(parts, n - 1, sep.len(), i as nat);
        }
        let last_off = join_offset(parts, sep.len(), (n - 1) as nat);
        assert(ji.len() + sep.len() == last_off);
        assert forall|i: int| 0 <= i < n implies #[trigger] j.subrange(
            join_offset(parts, sep.len(), i as nat) as int,
            join_offset(parts, sep.len(), i as nat) + parts[i].len(),
        ) == parts[i] by {
            if i < n - 1 {
                let a = join_offset(parts, sep.len(), i as nat) as int;
                assert(init[i] == parts[i]);
                assert(join_offset(init, sep.len(), i as nat) == a);
                assert(ji.subrange(
                    join_offset(init, sep.len(), i as nat) as int,
                    join_offset(init, sep.len(), i as nat) + init[i].len(),
                ) == init[i]);
                lemma_join_offset_grows(parts, sep.len(), i as nat, (n - 1) as nat);
                assert(j.subrange(a, a + parts[i].len()) =~= ji.subrange(a, a + parts[i].len()));
            } else {
                assert(j.subrange(last_off as int, last_off + parts[i].len()) =~= parts.last());
            }
        }
        assert forall|i: int| 0 <= i < n - 1 implies #[trigger] j.subrange(
            join_offset(parts, sep.len(), i as nat) + parts[i].len(),
            join_offset(parts, sep.len(), (i + 1) as nat) as int,
        ) == sep by {
            let a = join_offset(parts, sep.len(), i as nat) + parts[i].len();
            let b = join_offset(parts, sep.len(), (i + 1) as nat) as int;
            assert(init[i] == parts[i]);
            if i < n - 2 {
                assert(join_offset(init, sep.len(), i as nat) + init[i].len() == a);
                assert(join_offset(init, sep.len(), (i + 1) as nat) == b);
                assert(ji.subrange(
                    join_offset(init, sep.len(), i as nat) + init[i].len(),
                    join_offset(init, sep.len(), (i + 1) as nat) as int,
                ) == sep);
                lemma_join_offset_grows(parts, sep.len(), i as nat, (n - 1) as nat);
                lemma_join_offset_grows(parts, sep.len(), (i + 1) as nat, (n - 1) as nat);
                assert(j.subrange(a, b) =~= ji.subrange(a, b));
            } else {
                assert(a == ji.len());
                assert(j.subrange(a, b) =~= sep);
            }
        }
    }
}

fn digit(d: u64) -> (c: char)
    requires
        d < 10,
    ensures
        c == digit_char(d as nat),
{
    if d == 0 {
        '0'
    } else if d == 1 {
        '1'
    } else if d == 2 {
        '2'
    } else if d == 3 {
        '3'
    } else if d == 4 {
        '4'
    } else if d == 5 {
        '5'
    } else if d == 6 {
        '6'
    } else if d == 7 {
        '7'
    } else if d == 8 {
        '8'
    } else {
        '9'
    }
}

/// Appends the decimal notation of `n` to `out`.
pub fn push_decimal(out: &mut Vec<char>, n: u64)
    ensures
        final(out)@ == old(out)@ + decimal(n as nat),
    decreases n,
{
    if n < 10 {
        out.push(digit(n));
        assert(old(out)@.push(digit_char(n as nat)) =~= old(out)@ + seq![digit_char(n as nat)]);
    } else {
        push_decimal(out, n / 10);
        out.push(digit(n % 10));
        assert(old(out)@ + decimal((n / 10) as nat) + seq![digit_char((n % 10) as nat)]
            =~= old(out)@ + decimal(n as nat));
    }
}

} // verus!
