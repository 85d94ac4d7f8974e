//! Line-oriented extraction: splitting text into lines, recognising magnet
//! links by their scheme prefix, and trimming proxy entries.
//!
//! The two readers treat whitespace differently, on purpose: a magnet line
//! is matched and returned as it stands (only its line terminator is
//! stripped), while a proxy entry is trimmed of surrounding whitespace and
//! dropped when nothing remains.

use vstd::prelude::*;
use vstd::string::*;

verus! {

/// The scheme prefix that identifies a magnet link.
pub open spec fn magnet_prefix() -> Seq<char> {
    seq!['m', 'a', 'g', 'n', 'e', 't', ':']
}

/// `s` begins with the characters of `p`.
pub open spec fn starts_with(s: Seq<char>, p: Seq<char>) -> bool {
    s.len() >= p.len() && s.subrange(0, p.len() as int) == p
}

/// The characters with the Unicode White_Space property: the ASCII
/// whitespace, next line, no-break space, ogham space mark, the en-quad
/// to hair-space range, line and paragraph separators, narrow no-break
/// space, medium mathematical space, and ideographic space.
pub open spec fn whitespace_char(c: char) -> bool {
    ||| c == ' '
    ||| c == '\t'
    ||| c == '\n'
    ||| c == '\u{000B}'
    ||| c == '\u{000C}'
    ||| c == '\r'
    ||| c == '\u{0085}'
    ||| c == '\u{00A0}'
    ||| c == '\u{1680}'
    ||| (0x2000 <= c as u32 && c as u32 <= 0x200A)
    ||| c == '\u{2028}'
    ||| c == '\u{2029}'
    ||| c == '\u{202F}'
    ||| c == '\u{205F}'
    ||| c == '\u{3000}'
}

/// Relies on char::is_whitespace: true exactly when the character has the
/// Unicode White_Space property, the set written out above.
pub assume_specification[ char::is_whitespace ](c: char) -> (r: bool)
    ensures
        r == whitespace_char(c),
;

/// No character of `s` is a line break.
pub open spec fn has_no_newline(s: Seq<char>) -> bool {
    forall|i: int| 0 <= i < s.len() ==> s[i] != '\n'
}

/// The stretches of `s` between its line breaks, in order, terminators
/// excluded. A trailing line break yields a final empty piece; the result
/// is never empty.
pub open spec fn split_pieces(s: Seq<char>) -> Seq<Seq<char>>
    decreases s.len(),
{
    if s.len() == 0 {
        seq![Seq::<char>::empty()]
    } else if s[0] == '\n' {
        seq![Seq::<char>::empty()] + split_pieces(s.drop_first())
    } else {
        let rest = split_pieces(s.drop_first());
        seq![seq![s[0]] + rest[0]] + rest.drop_first()
    }
}

pub proof fn lemma_split_pieces_nonempty(s: Seq<char>)
    ensures
        split_pieces(s).len() >= 1,
    decreases s.len(),
{
    if s.len() != 0 {
        lemma_split_pieces_nonempty(s.drop_first());
    }
}

/// A piece without a line break splits into itself alone.
pub proof fn lemma_split_no_newline(s: Seq<char>)
    requires
        has_no_newline(s),
    ensures
        split_pieces(s) == seq![s],
    decreases s.len(),
{
    if s.len() == 0 {
        assert(s =~= Seq::<char>::empty());
        assert(split_pieces(s) =~~= seq![s]);
    } else {
        assert(s[0] != '\n');
        assert(has_no_newline(s.drop_first()));
        lemma_split_no_newline(s.drop_first());
        lemma_split_pieces_nonempty(s.drop_first());
        assert(seq![s[0]] + s.drop_first() =~= s);
        assert(split_pieces(s) =~~= seq![s]);
    }
}

/// Splitting after the first line break yields the break-free prefix as the
/// first piece, then the pieces of the remainder.
pub proof fn lemma_split_at_newline(pre: Seq<char>, rest: Seq<char>)
    requires
        has_no_newline(pre),
    ensures
        split_pieces(pre + seq!['\n'] + rest) == seq![pre] + split_pieces(rest),
    decreases pre.len(),
{
    let s = pre + seq!['\n'] + rest;
    if pre.len() == 0 {
        assert(s =~= seq!['\n'] + rest);
        assert(s[0] == '\n');
        assert(s.drop_first() =~= rest);
        assert(split_pieces(s) =~~= seq![pre] + split_pieces(rest));
    } else {
        assert(s[0] == pre[0]);
        assert(s[0] != '\n');
        assert(s.drop_first() =~= pre.drop_first() + seq!['\n'] + rest);
        assert(has_no_newline(pre.drop_first()));
        lemma_split_at_newline(pre.drop_first(), rest);
        let r = split_pieces(s.drop_first());
        assert(r == seq![pre.drop_first()] + split_pieces(rest));
        assert(r[0] == pre.drop_first());
        assert(seq![s[0]] + r[0] =~= pre);
        assert(r.drop_first() =~= split_pieces(rest));
        assert(split_pieces(s) =~~= seq![pre] + split_pieces(rest));
    }
}

/// A piece's text as a line: one carriage return left at its end by a CRLF
/// terminator is stripped.
pub open spec fn strip_cr(s: Seq<char>) -> Seq<char> {
    if s.len() > 0 && s.last() == '\r' {
        s.drop_last()
    } else {
        s
    }
}

/// The lines of `s`: the pieces between line breaks, each terminated piece
/// with a trailing carriage return stripped (so CRLF files read as LF
/// files do); a final unterminated piece stands as it is.
pub open spec fn split_lines_spec(s: Seq<char>) -> Seq<Seq<char>> {
    let pieces = split_pieces(s);
    Seq::new(
        pieces.len(),
        |i: int|
            if i < pieces.len() - 1 {
                strip_cr(pieces[i])
            } else {
                pieces[i]
            },
    )
}

/// The first line of a break-terminated prefix is that prefix, stripped of
/// a trailing carriage return; the remainder's lines follow.
pub proof fn lemma_split_lines_prepend(pre: Seq<char>, rest: Seq<char>)
    requires
        has_no_newline(pre),
    ensures
        split_lines_spec(pre + seq!['\n'] + rest) == seq![strip_cr(pre)] + split_lines_spec(rest),
{
    lemma_split_at_newline(pre, rest);
    lemma_split_pieces_nonempty(rest);
    assert(split_lines_spec(pre + seq!['\n'] + rest) =~~= seq![strip_cr(pre)] + split_lines_spec(
        rest,
    ));
}

/// Splits `content` into its lines, stripping the terminator of each:
/// a line break ends a line, and a carriage return directly before the
/// break is dropped with it. Empty lines are kept.
pub fn split_lines(content: &str) -> (r: Vec<String>)
    ensures
        r.deep_view() == split_lines_spec(content@),
{
    let n = content.unicode_len();
    let mut r: Vec<String> = Vec::new();
    let mut start: usize = 0;
    let mut i: usize = 0;
    proof {
        assert(content@.subrange(0, n as int) =~= content@);
        assert(r.deep_view() =~~= Seq::<Seq<char>>::empty());
    }
    while i < n
        invariant
            start <= i <= n,
            n == content@.len(),
            has_no_newline(content@.subrange(start as int, i as int)),
            split_lines_spec(content@) == r.deep_view() + split_lines_spec(
                content@.subrange(start as int, n as int),
            ),
        decreases n - i,
    {
        let c = content.get_char(i);
        if c == '\n' {
            let end: usize = if i > start && content.get_char(i - 1) == '\r' {
                i - 1
            } else {
                i
            };
            let ghost pre = content@.subrange(start as int, i as int);
            proof {
                let tail = content@.subrange(i + 1, n as int);
                assert(content@.subrange(start as int, n as int) =~= pre + seq!['\n'] + tail);
                lemma_split_lines_prepend(pre, tail);
                if end < i {
                    assert(pre.last() == content@[i - 1]);
                    assert(strip_cr(pre) =~= content@.subrange(start as int, end as int));
                } else {
                    assert(strip_cr(pre) =~= content@.subrange(start as int, end as int));
                }
                assert((r.deep_view() + seq![strip_cr(pre)]) + split_lines_spec(tail)
                    =~~= r.deep_view() + (seq![strip_cr(pre)] + split_lines_spec(tail)));
            }
            let piece = content.substring_char(start, end);
            let owned = String::from_str(piece);
            let ghost old_r = r.deep_view();
            r.push(owned);
            proof {
                assert(r.deep_view() =~~= old_r + seq![strip_cr(pre)]);
            }
            start = i + 1;
            proof {
                assert(has_no_newline(content@.subrange(start as int, start as int)));
            }
        } else {
            proof {
                assert(content@.subrange(start as int, i + 1) =~= content@.subrange(
                    start as int,
                    i as int,
                ).push(content@[i as int]));
            }
        }
        i += 1;
    }
    let piece = content.substring_char(start, n);
    proof {
        lemma_split_no_newline(content@.subrange(start as int, n as int));
        assert(split_lines_spec(content@.subrange(start as int, n as int)) =~~= seq![
            content@.subrange(start as int, n as int),
        ]);
    }
    let owned = String::from_str(piece);
    let ghost old_r = r.deep_view();
    r.push(owned);
    proof {
        assert(r.deep_view() =~~= old_r + seq![content@.subrange(start as int, n as int)]);
        assert(r.deep_view() =~~= split_lines_spec(content@));
    }
    r
}

/// `s` without its leading whitespace.
pub open spec fn trim_front(s: Seq<char>) -> Seq<char>
    decreases s.len(),
{
    if s.len() > 0 && whitespace_char(s[0]) {
        trim_front(s.drop_first())
    } else {
        s
    }
}

/// `s` without its trailing whitespace.
pub open spec fn trim_back(s: Seq<char>) -> Seq<char>
    decreases s.len(),
{
    if s.len() > 0 && whitespace_char(s.last()) {
        trim_back(s.drop_last())
    } else {
        s
    }
}

/// `s` without its leading and trailing whitespace, as str::trim leaves it.
pub open spec fn trim_spec(s: Seq<char>) -> Seq<char> {
    trim_back(trim_front(s))
}

proof fn lemma_trim_front_subrange(s: Seq<char>, a: int)
    requires
        0 <= a <= s.len(),
        forall|j: int| 0 <= j < a ==> whitespace_char(#[trigger] s[j]),
        a < s.len() ==> !whitespace_char(s[a]),
    ensures
        trim_front(s) == s.subrange(a, s.len() as int),
    decreases a,
{
    if a == 0 {
        assert(s.subrange(0, s.len() as int) =~= s);
    } else {
        let t = s.drop_first();
        assert(whitespace_char(s[0]));
        assert forall|j: int| 0 <= j < a - 1 implies whitespace_char(#[trigger] t[j]) by {
            assert(t[j] == s[j + 1]);
        }
        lemma_trim_front_subrange(t, a - 1);
        assert(t.subrange(a - 1, t.len() as int) =~= s.subrange(a, s.len() as int));
    }
}

proof fn lemma_trim_back_subrange(s: Seq<char>, b: int)
    requires
        0 <= b <= s.len(),
        forall|j: int| b <= j < s.len() ==> whitespace_char(#[trigger] s[j]),
        b > 0 ==> !whitespace_char(s[b - 1]),
    ensures
        trim_back(s) == s.subrange(0, b),
    decreases s.len(),
{
    if b == s.len() {
        assert(s.subrange(0, b) =~= s);
    } else {
        let t = s.drop_last();
        assert(whitespace_char(s[s.len() - 1]));
        assert forall|j: int| b <= j < t.len() implies whitespace_char(#[trigger] t[j]) by {
            assert(t[j] == s[j]);
        }
        lemma_trim_back_subrange(t, b);
        assert(t.subrange(0, b) =~= s.subrange(0, b));
    }
}

proof fn lemma_trim_front_len(s: Seq<char>)
    ensures
        trim_front(s).len() <= s.len(),
        (s.len() > 0 && whitespace_char(s[0])) ==> trim_front(s).len() < s.len(),
    decreases s.len(),
{
    if s.len() > 0 && whitespace_char(s[0]) {
        lemma_trim_front_len(s.drop_first());
    }
}

proof fn lemma_trim_back_len(s: Seq<char>)
    ensures
        trim_back(s).len() <= s.len(),
        (s.len() > 0 && whitespace_char(s.last())) ==> trim_back(s).len() < s.len(),
    decreases s.len(),
{
    if s.len() > 0 && whitespace_char(s.last()) {
        lemma_trim_back_len(s.drop_last());
    }
}

/// A non-empty line that equals its own trim starts and ends with a
/// non-whitespace character.
pub proof fn lemma_trimmed_ends(s: Seq<char>)
    requires
        trim_spec(s) == s,
        s.len() > 0,
    ensures
        !whitespace_char(s[0]),
        !whitespace_char(s.last()),
{
    lemma_trim_front_len(s);
    lemma_trim_back_len(trim_front(s));
    if whitespace_char(s[0]) {
        assert(trim_spec(s).len() < s.len());
    }
    assert(trim_front(s) == s);
    lemma_trim_back_len(s);
    if whitespace_char(s.last()) {
        assert(trim_spec(s).len() < s.len());
    }
}

/// Trims leading and trailing whitespace, as str::trim does.
pub fn trim_line(s: &str) -> (r: String)
    ensures
        r@ == trim_spec(s@),
{
    let n = s.unicode_len();
    let mut a: usize = 0;
    while a < n && s.get_char(a).is_whitespace()
        invariant
            a <= n,
            n == s@.len(),
            forall|j: int| 0 <= j < a ==> whitespace_char(#[trigger] s@[j]),
        decreases n - a,
    {
        a += 1;
    }
    let mut b: usize = n;
    while b > a && s.get_char(b - 1).is_whitespace()
        invariant
            a <= b <= n,
            n == s@.len(),
            forall|j: int| b <= j < n ==> whitespace_char(#[trigger] s@[j]),
        decreases b,
    {
        b -= 1;
    }
    proof {
        lemma_trim_front_subrange(s@, a as int);
        let sub = s@.subrange(a as int, n as int);
        assert forall|j: int| b - a <= j < sub.len() implies whitespace_char(
            #[trigger] sub[j],
        ) by {
            assert(sub[j] == s@[a + j]);
        }
        lemma_trim_back_subrange(sub, b - a);
        assert(sub.subrange(0, b - a) =~= s@.subrange(a as int, b as int));
    }
    let piece = s.substring_char(a, b);
    String::from_str(piece)
}

/// True exactly when `s` begins with the characters of `p`.
pub fn has_prefix(s: &str, p: &str) -> (r: bool)
    ensures
        r == starts_with(s@, p@),
{
    let sn = s.unicode_len();
    let pn = p.unicode_len();
    if sn < pn {
        return false;
    }
    let mut i: usize = 0;
    while i < pn
        invariant
            i <= pn,
            pn == p@.len(),
            sn == s@.len(),
            pn <= sn,
            forall|j: int| 0 <= j < i ==> s@[j] == p@[j],
        decreases pn - i,
    {
        if s.get_char(i) != p.get_char(i) {
            proof {
                assert(!starts_with(s@, p@)) by {
                    if starts_with(s@, p@) {
                        assert(s@.subrange(0, p@.len() as int)[i as int] == s@[i as int]);
                    }
                }
            }
            return false;
        }
        i += 1;
    }
    proof {
        assert(s@.subrange(0, p@.len() as int) =~= p@);
    }
    true
}

/// The lines that begin with the magnet scheme prefix, as they stand, in
/// order.
pub open spec fn magnet_filter(lines: Seq<Seq<char>>) -> Seq<Seq<char>> {
    lines.filter(|l: Seq<char>| starts_with(l, magnet_prefix()))
}

/// The lines trimmed, keeping those with something left, in order.
pub open spec fn proxy_filter(lines: Seq<Seq<char>>) -> Seq<Seq<char>> {
    lines.map_values(|l: Seq<char>| trim_spec(l)).filter(|l: Seq<char>| l.len() != 0)
}

/// The magnet links found in a whole text: split it into lines and keep
/// those with the scheme prefix, unaltered.
pub open spec fn magnet_links_spec(s: Seq<char>) -> Seq<Seq<char>> {
    magnet_filter(split_lines_spec(s))
}

/// The proxy candidates found in a whole text: split it into lines, trim
/// each, and keep the non-empty results, in file order.
pub open spec fn proxies_spec(s: Seq<char>) -> Seq<Seq<char>> {
    proxy_filter(split_lines_spec(s))
}

proof fn lemma_magnet_literal()
    ensures
        "magnet:"@ == magnet_prefix(),
{
    reveal_strlit("magnet:");
    assert("magnet:"@ =~= magnet_prefix());
}

/// Keeps the lines that begin with the magnet scheme prefix, in order.
pub fn filter_magnet_lines(lines: &Vec<String>) -> (r: Vec<String>)
    ensures
        r.deep_view() == magnet_filter(lines.deep_view()),
{
    let ghost pred = |l: Seq<char>| starts_with(l, magnet_prefix());
    let mut r: Vec<String> = Vec::new();
    proof {
        reveal(Seq::filter);
        assert(r.deep_view() =~~= Seq::<Seq<char>>::empty());
        assert(lines.deep_view().subrange(0, 0).filter(pred) =~~= Seq::<Seq<char>>::empty());
    }
    let n = lines.len();
    let mut i: usize = 0;
    while i < n
        invariant
            i <= n,
            n == lines@.len(),
            r.deep_view() == lines.deep_view().subrange(0, i as int).filter(pred),
            pred == (|l: Seq<char>| starts_with(l, magnet_prefix())),
        decreases n - i,
    {
        let line = &lines[i];
        let keep = has_prefix(line.as_str(), "magnet:");
        let ghost sub1 = lines.deep_view().subrange(0, i as int);
        let ghost sub2 = lines.deep_view().subrange(0, i + 1);
        proof {
            lemma_magnet_literal();
            assert(lines.deep_view()[i as int] == lines@[i as int]@);
            assert(keep == pred(lines.deep_view()[i as int]));
            assert(sub2 =~~= sub1.push(lines.deep_view()[i as int]));
            sub1.lemma_filter_push(lines.deep_view()[i as int], pred);
        }
        if keep {
            let ghost old_r = r.deep_view();
            r.push(line.clone());
            proof {
                assert(r.deep_view() =~~= old_r.push(lines.deep_view()[i as int]));
            }
        }
        i += 1;
    }
    proof {
        assert(lines.deep_view().subrange(0, n as int) =~~= lines.deep_view());
    }
    r
}

/// Trims each line and keeps the non-empty results, in order.
pub fn filter_proxy_lines(lines: &Vec<String>) -> (r: Vec<String>)
    ensures
        r.deep_view() == proxy_filter(lines.deep_view()),
{
    let ghost tr = |l: Seq<char>| trim_spec(l);
    let ghost pred = |l: Seq<char>| l.len() != 0;
    let mut r: Vec<String> = Vec::new();
    proof {
        reveal(Seq::filter);
        assert(r.deep_view() =~~= Seq::<Seq<char>>::empty());
        assert(lines.deep_view().subrange(0, 0).map_values(tr).filter(pred)
            =~~= Seq::<Seq<char>>::empty());
    }
    let n = lines.len();
    let mut i: usize = 0;
    while i < n
        invariant
            i <= n,
            n == lines@.len(),
            r.deep_view() == lines.deep_view().subrange(0, i as int).map_values(tr).filter(pred),
            tr == (|l: Seq<char>| trim_spec(l)),
            pred == (|l: Seq<char>| l.len() != 0),
        decreases n - i,
    {
        let trimmed = trim_line(lines[i].as_str());
        let keep = !trimmed.as_str().is_empty();
        let ghost elem = trim_spec(lines.deep_view()[i as int]);
        let ghost mapped1 = lines.deep_view().subrange(0, i as int).map_values(tr);
        let ghost mapped2 = lines.deep_view().subrange(0, i + 1).map_values(tr);
        proof {
            assert(lines.deep_view()[i as int] == lines@[i as int]@);
            assert(trimmed@ == elem);
            assert(keep == pred(elem));
            assert(mapped2 =~~= mapped1.push(elem));
            mapped1.lemma_filter_push(elem, pred);
        }
        if keep {
            let ghost old_r = r.deep_view();
            r.push(trimmed);
            proof {
                assert(r.deep_view() =~~= old_r.push(elem));
            }
        }
        i += 1;
    }
    proof {
        assert(lines.deep_view().subrange(0, n as int) =~~= lines.deep_view());
    }
    r
}

/// Extracts the magnet links from the text of a magnet-link file: one
/// candidate per line, kept exactly when the line starts with the magnet
/// scheme prefix; matching lines are returned as they stand.
pub fn extract_magnet_links(content: &str) -> (r: Vec<String>)
    ensures
        r.deep_view() == magnet_links_spec(content@),
{
    let lines = split_lines(content);
    filter_magnet_lines(&lines)
}

/// Extracts the proxy candidates from the text of a proxy-list file: one
/// address per line, each trimmed of surrounding whitespace, lines empty
/// after trimming dropped, order kept.
pub fn extract_socks_proxies(content: &str) -> (r: Vec<String>)
    ensures
        r.deep_view() == proxies_spec(content@),
{
    let lines = split_lines(content);
    filter_proxy_lines(&lines)
}

} // verus!
