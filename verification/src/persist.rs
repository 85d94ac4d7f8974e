//! Rendering the surviving proxy list back to line-oriented text, and the
//! round-trip law: re-reading a rendered list yields the same sequence.

use vstd::prelude::*;
use vstd::string::*;
use crate::lines::{
    has_no_newline, lemma_split_lines_prepend, lemma_split_no_newline, lemma_trimmed_ends,
    proxies_spec, proxy_filter, split_lines_spec, strip_cr, trim_spec,
};

verus! {

/// The text of a proxy list: each entry followed by one line break.
pub open spec fn join_lines(lines: Seq<Seq<char>>) -> Seq<char>
    decreases lines.len(),
{
    if lines.len() == 0 {
        Seq::empty()
    } else {
        lines[0] + seq!['\n'] + join_lines(lines.drop_first())
    }
}

proof fn lemma_join_lines_add(a: Seq<Seq<char>>, b: Seq<Seq<char>>)
    ensures
        join_lines(a + b) == join_lines(a) + join_lines(b),
    decreases a.len(),
{
    if a.len() == 0 {
        assert(a + b =~= b);
        assert(join_lines(a) + join_lines(b) =~= join_lines(b));
    } else {
        assert((a + b).drop_first() =~= a.drop_first() + b);
        lemma_join_lines_add(a.drop_first(), b);
        assert(join_lines(a + b) =~= join_lines(a) + join_lines(b));
    }
}

/// Renders the survivors one per line, in discovery order, each line
/// terminated by a line break.
pub fn render_survivors(survivors: &Vec<String>) -> (r: String)
    ensures
        r@ == join_lines(survivors.deep_view()),
{
    let mut out = String::new();
    proof {
        assert(join_lines(survivors.deep_view().subrange(0, 0)) =~= Seq::<char>::empty());
    }
    let n = survivors.len();
    let mut i: usize = 0;
    while i < n
        invariant
            i <= n,
            n == survivors@.len(),
            out@ == join_lines(survivors.deep_view().subrange(0, i as int)),
        decreases n - i,
    {
        out.append(survivors[i].as_str());
        out.append("\n");
        proof {
            reveal_strlit("\n");
            let sub1 = survivors.deep_view().subrange(0, i as int);
            let sub2 = survivors.deep_view().subrange(0, i + 1);
            let entry = survivors.deep_view()[i as int];
            assert(sub2 =~~= sub1 + seq![entry]);
            lemma_join_lines_add(sub1, seq![entry]);
            assert(seq![entry].drop_first() =~= Seq::<Seq<char>>::empty());
            assert(join_lines(Seq::<Seq<char>>::empty()) =~= Seq::<char>::empty());
            assert(join_lines(seq![entry]) =~= entry + seq!['\n']);
            assert("\n"@ =~= seq!['\n']);
            assert(out@ =~= join_lines(sub2));
        }
        i += 1;
    }
    proof {
        assert(survivors.deep_view().subrange(0, n as int) =~~= survivors.deep_view());
    }
    out
}

/// Law: persisting a survivor list and reading the file back reproduces the
/// same ordered sequence of addresses, provided each entry is non-empty,
/// already trimmed, and free of line breaks.
pub proof fn lemma_persist_round_trip(survivors: Seq<Seq<char>>)
    requires
        forall|i: int| 0 <= i < survivors.len() ==> has_no_newline(#[trigger] survivors[i]),
        forall|i: int| 0 <= i < survivors.len() ==> trim_spec(#[trigger] survivors[i])
            == survivors[i],
        forall|i: int| 0 <= i < survivors.len() ==> (#[trigger] survivors[i]).len() > 0,
    ensures
        proxies_spec(join_lines(survivors)) == survivors,
    decreases survivors.len(),
{
    reveal(Seq::filter);
    let tr = |l: Seq<char>| trim_spec(l);
    let pred = |l: Seq<char>| l.len() != 0;
    if survivors.len() == 0 {
        assert(join_lines(survivors).len() == 0);
        lemma_split_no_newline(join_lines(survivors));
        let ls = split_lines_spec(join_lines(survivors));
        assert(ls =~~= seq![Seq::<char>::empty()]);
        let mapped = ls.map_values(tr);
        assert(trim_spec(Seq::<char>::empty()) =~= Seq::<char>::empty());
        assert(mapped =~~= seq![Seq::<char>::empty()]);
        assert(mapped.drop_last() =~~= Seq::<Seq<char>>::empty());
        assert(!pred(Seq::<char>::empty()));
        assert(Seq::<Seq<char>>::empty().filter(pred).len() == 0);
        assert(mapped.filter(pred).len() == 0);
        assert(proxies_spec(join_lines(survivors)) =~~= survivors);
    } else {
        let first = survivors[0];
        let rest = survivors.drop_first();
        assert(join_lines(survivors) == first + seq!['\n'] + join_lines(rest));
        lemma_split_lines_prepend(first, join_lines(rest));
        lemma_trimmed_ends(first);
        assert(first.last() != '\r');
        assert(strip_cr(first) == first);
        lemma_persist_round_trip(rest);
        let ls_rest = split_lines_spec(join_lines(rest));
        let ls = split_lines_spec(join_lines(survivors));
        assert(ls == seq![first] + ls_rest);
        assert(ls.map_values(tr) =~~= seq![trim_spec(first)] + ls_rest.map_values(tr));
        assert(trim_spec(first) == first);
        ls_rest.map_values(tr).lemma_filter_prepend(first, pred);
        assert(pred(first));
        assert(proxy_filter(ls) =~~= seq![first] + proxy_filter(ls_rest));
        assert(proxy_filter(ls_rest) == rest);
        assert(proxies_spec(join_lines(survivors)) =~~= survivors);
    }
}

} // verus!
