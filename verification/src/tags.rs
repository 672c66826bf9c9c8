//! Tags of todos: how they are entered, stored, found and counted.

use crate::json::{from_json, to_json};
use crate::text::{
    chars_of, has_text, split_chars, string_of, text_precedes, trim_chars, trim_start_chars,
    CharClass,
};
use vstd::prelude::*;

verus! {

pub open spec fn same_text(t: Seq<char>) -> spec_fn(Seq<char>) -> bool {
    |x: Seq<char>| x == t
}

/// How often `t` occurs in the list.
pub open spec fn occurrences(list: Seq<Seq<char>>, t: Seq<char>) -> nat {
    list.filter(same_text(t)).len()
}

/// A tag and how often it occurs.
#[derive(Debug)]
pub struct TagCount {
    pub tag: String,
    pub count: usize,
}

/// Whether `counts` are the different tags of the list in the order of texts, each with how often
/// it occurs.
pub open spec fn is_tally(counts: Seq<TagCount>, list: Seq<Seq<char>>) -> bool {
    &&& forall|i: int, j: int|
        0 <= i < j < counts.len() ==> crate::text::text_before(
            (#[trigger] counts[i]).tag@,
            (#[trigger] counts[j]).tag@,
        )
    &&& forall|i: int|
        0 <= i < counts.len() ==> (#[trigger] counts[i]).count > 0 && counts[i].count
            == occurrences(list, counts[i].tag@)
    &&& forall|t: Seq<char>| #[trigger]
        list.contains(t) ==> exists|i: int|
            0 <= i < counts.len() && (#[trigger] counts[i]).tag@ == t
}

proof fn lemma_occurrences_push(list: Seq<Seq<char>>, t: Seq<char>, u: Seq<char>)
    ensures
        occurrences(list.push(u), t) == occurrences(list, t) + (if t == u {
            1nat
        } else {
            0nat
        }),
{
    reveal(Seq::filter);
    assert(list.push(u).drop_last() =~= list);
}

/// A text that is not in a list does not occur in it.
pub proof fn lemma_no_occurrence(list: Seq<Seq<char>>, t: Seq<char>)
    requires
        !list.contains(t),
    ensures
        occurrences(list, t) == 0,
{
    crate::seqs::lemma_filter_elements(list, same_text(t));
    let f = list.filter(same_text(t));
    if f.len() > 0 {
        assert(f.contains(f[0]));
    }
}

/// The index of the first entry that does not come before `t`.
fn tag_place(counts: &Vec<TagCount>, t: &Vec<char>) -> (res: usize)
    ensures
        res <= counts@.len(),
        forall|i: int| 0 <= i < res ==> crate::text::text_before((#[trigger] counts@[i]).tag@, t@),
        res < counts@.len() ==> !crate::text::text_before(counts@[res as int].tag@, t@),
{
    let mut i: usize = 0;
    while i < counts.len()
        invariant
            i <= counts@.len(),
            forall|k: int| 0 <= k < i ==> crate::text::text_before((#[trigger] counts@[k]).tag@, t@),
        decreases counts@.len() - i,
    {
        if !text_precedes(&chars_of(counts[i].tag.as_str()), t) {
            return i;
        }
        i += 1;
    }
    i
}

/// Counts one more occurrence of a tag.
fn count_tag(counts: &mut Vec<TagCount>, tag: &String, Ghost(list): Ghost<Seq<Seq<char>>>)
    requires
        is_tally(old(counts)@, list),
        list.len() < usize::MAX,
    ensures
        is_tally(final(counts)@, list.push(tag@)),
{
    let ghost c0 = counts@;
    let ghost all = list.push(tag@);
    let t = chars_of(tag.as_str());
    let p = tag_place(counts, &t);
    proof {
        assert forall|u: Seq<char>| #[trigger] all.contains(u) implies list.contains(u) || u
            == tag@ by {
            let k = choose|k: int| 0 <= k < all.len() && all[k] == u;
            if k < list.len() {
                assert(list[k] == u);
            }
        }
        assert forall|u: Seq<char>| occurrences(all, u) == #[trigger] occurrences(list, u) + (
        if u == tag@ {
            1nat
        } else {
            0nat
        }) by {
            lemma_occurrences_push(list, u, tag@);
        }
        crate::seqs::lemma_filter_elements(list, same_text(tag@));
        if p < c0.len() {
            crate::text::lemma_text_total(c0[p as int].tag@, tag@);
        }
        crate::text::lemma_text_total(tag@, tag@);
    }
    if p < counts.len() && crate::text::str_eq(counts[p].tag.as_str(), tag.as_str()) {
        let n = counts[p].count;
        counts[p] = TagCount { tag: tag.clone(), count: n + 1 };
        proof {
            assert forall|u: Seq<char>| #[trigger] all.contains(u) implies exists|i: int|
                0 <= i < counts@.len() && (#[trigger] counts@[i]).tag@ == u by {
                if u == tag@ {
                    assert(counts@[p as int].tag@ == u);
                } else {
                    assert(list.contains(u));
                    let i = choose|i: int| 0 <= i < c0.len() && (#[trigger] c0[i]).tag@ == u;
                    assert(counts@[i].tag@ == u);
                }
            }
            assert forall|i: int| 0 <= i < counts@.len() implies (#[trigger] counts@[i]).count > 0
                && counts@[i].count == occurrences(all, counts@[i].tag@) by {
                if i < p {
                    assert(crate::text::text_before(c0[i].tag@, c0[p as int].tag@));
                }
                if i > p {
                    assert(crate::text::text_before(c0[p as int].tag@, c0[i].tag@));
                }
                assert(occurrences(all, c0[i].tag@) == occurrences(list, c0[i].tag@) + (if i == p {
                    1nat
                } else {
                    0nat
                }));
            }
            assert forall|i: int, j: int| 0 <= i < j < counts@.len() implies crate::text::text_before(
                (#[trigger] counts@[i]).tag@,
                (#[trigger] counts@[j]).tag@,
            ) by {
                assert(crate::text::text_before(c0[i].tag@, c0[j].tag@));
            }
        }
    } else {
        counts.insert(p, TagCount { tag: tag.clone(), count: 1 });
        proof {
            assert forall|i: int| p <= i < c0.len() implies crate::text::text_before(
                tag@,
                (#[trigger] c0[i]).tag@,
            ) by {
                if i > p {
                    assert(crate::text::text_before(c0[p as int].tag@, c0[i].tag@));
                    crate::text::lemma_text_transitive(tag@, c0[p as int].tag@, c0[i].tag@);
                }
            }
            assert(!list.contains(tag@)) by {
                if list.contains(tag@) {
                    let i = choose|i: int| 0 <= i < c0.len() && (#[trigger] c0[i]).tag@ == tag@;
                    assert(crate::text::text_before(c0[i].tag@, tag@) || crate::text::text_before(tag@, c0[i].tag@));
                }
            }
            lemma_no_occurrence(list, tag@);
            assert(occurrences(all, tag@) == occurrences(list, tag@) + 1);
            assert forall|i: int, j: int| 0 <= i < j < counts@.len() implies crate::text::text_before(
                (#[trigger] counts@[i]).tag@,
                (#[trigger] counts@[j]).tag@,
            ) by {
                let a = if i < p {
                    i
                } else {
                    i - 1
                };
                let b = if j < p {
                    j
                } else {
                    j - 1
                };
                if i == p {
                    assert(counts@[j] == c0[b]);
                } else if j == p {
                    assert(counts@[i] == c0[a]);
                } else {
                    assert(counts@[i] == c0[a]);
                    assert(counts@[j] == c0[b]);
                    assert(crate::text::text_before(c0[a].tag@, c0[b].tag@));
                }
            }
            assert forall|i: int| 0 <= i < counts@.len() implies (#[trigger] counts@[i]).count > 0
                && counts@[i].count == occurrences(all, counts@[i].tag@) by {
                if i != p {
                    let k = if i < p {
                        i
                    } else {
                        i - 1
                    };
                    assert(counts@[i] == c0[k]);
                    assert(c0[k].tag@ != tag@) by {
                        assert(crate::text::text_before(c0[k].tag@, tag@) || crate::text::text_before(tag@, c0[k].tag@));
                    }
                    assert(occurrences(all, c0[k].tag@) == occurrences(list, c0[k].tag@));
                }
            }
            assert forall|u: Seq<char>| #[trigger] all.contains(u) implies exists|i: int|
                0 <= i < counts@.len() && (#[trigger] counts@[i]).tag@ == u by {
                if u == tag@ {
                    assert(counts@[p as int].tag@ == u);
                } else {
                    assert(list.contains(u));
                    let k = choose|k: int| 0 <= k < c0.len() && (#[trigger] c0[k]).tag@ == u;
                    let i = if k < p {
                        k
                    } else {
                        k + 1
                    };
                    assert(counts@[i] == c0[k]);
                }
            }
        }
    }
}

/// The different tags of a list in the order of texts, each with how often it occurs.
pub fn tally(list: &Vec<String>) -> (res: Vec<TagCount>)
    ensures
        is_tally(res@, crate::text::views(list@)),
{
    let mut counts: Vec<TagCount> = Vec::new();
    let ghost all = crate::text::views(list@);
    let n = list.len();
    for i in 0..n
        invariant
            n == list@.len(),
            all == crate::text::views(list@),
            is_tally(counts@, all.take(i as int)),
    {
        count_tag(&mut counts, &list[i], Ghost(all.take(i as int)));
        assert(all.take(i as int).push(all[i as int]) =~= all.take(i + 1));
    }
    assert(all.take(n as int) =~= all);
    counts
}

/// A tag as it is entered: without the whitespace around it and the `#` before it.
pub open spec fn entered_tag(part: Seq<char>) -> Seq<char> {
    crate::text::trim_start(crate::text::trimmed(part, CharClass::White), CharClass::Hash)
}

/// The tags in a text that separates them with commas; empty ones do not count.
pub open spec fn entered_tags(s: Seq<char>) -> Seq<Seq<char>> {
    tags_of_parts(crate::text::split_on(s, ','))
}

pub open spec fn tags_of_parts(parts: Seq<Seq<char>>) -> Seq<Seq<char>>
    decreases parts.len(),
{
    if parts.len() == 0 {
        seq![]
    } else {
        let rest = tags_of_parts(parts.drop_last());
        let tag = entered_tag(parts.last());
        if tag.len() == 0 {
            rest
        } else {
            rest.push(tag)
        }
    }
}

/// The tags in a text that separates them with commas.
pub fn parse_tags(s: &str) -> (res: Vec<String>)
    ensures
        crate::text::views(res@) == entered_tags(s@),
{
    let parts = split_chars(&chars_of(s), ',');
    let ghost pv = crate::text::split_on(s@, ',');
    let ghost view = |p: Vec<char>| p@;
    assert(parts@.map_values(view) == pv);
    let mut out: Vec<String> = Vec::new();
    assert(crate::text::views(out@) =~= tags_of_parts(pv.take(0)));
    for i in 0..parts.len()
        invariant
            view == (|p: Vec<char>| p@),
            parts@.map_values(view) == pv,
            crate::text::views(out@) == tags_of_parts(pv.take(i as int)),
    {
        let tag = trim_start_chars(&trim_chars(&parts[i], CharClass::White), CharClass::Hash);
        let ghost before = crate::text::views(out@);
        proof {
            assert(pv[i as int] == parts@.map_values(view)[i as int]);
            assert(pv.take(i + 1).drop_last() =~= pv.take(i as int));
        }
        if tag.len() > 0 {
            out.push(string_of(&tag));
            assert(crate::text::views(out@) =~= before.push(tag@));
        }
    }
    assert(pv.take(pv.len() as int) =~= pv);
    out
}

/// The stored form of the tags in a text that separates them with commas.
pub fn tags_json(s: &str) -> (res: String)
    ensures
        res@ == crate::json::json_array(entered_tags(s@)),
{
    to_json(&parse_tags(s))
}

/// The tags that a stored text stands for. A text that was made from a list of tags stands for
/// that list.
pub fn stored_tags(text: &str) -> (res: Option<Vec<String>>)
    ensures
        match res {
            Some(list) => crate::json::json_strings(text@) == Some(crate::text::views(list@)),
            None => crate::json::json_strings(text@) is None,
        },
        forall|l: Seq<Seq<char>>| #[trigger]
            crate::json::json_array(l) == text@ ==> res is Some && crate::text::views(res->0@) == l,
{
    from_json(text)
}

/// Whether the tags that a stored text stands for hold `tag` itself.
pub open spec fn has_tag(list: Option<Seq<Seq<char>>>, tag: Seq<char>) -> bool {
    list is Some && list->0.contains(tag)
}

/// Whether the tags that a stored text stands for hold `tag` itself.
pub fn holds_tag(list: &Option<Vec<String>>, tag: &str) -> (res: bool)
    ensures
        res == has_tag(crate::text::opt_views(*list), tag@),
{
    match list {
        Some(l) => has_text(l, tag),
        None => false,
    }
}

} // verus!
