//! Merging per-source tag record lists into one deduplicated catalog.
//!
//! Records are grouped by namespace and tag name; each group yields one
//! record whose values are the normalized identifiers of every member,
//! without duplicates and in ascending lexicographic order. Groups appear in
//! the order in which their first member occurs in the flattened input.

use vstd::prelude::*;
use crate::data::{MinecraftTagData, TagDataModel};
use crate::tag::{MinecraftTag, MinecraftTagValue, TagModel, TagValueModel};
use crate::text::{lex_lt, lemma_lex_irrefl, lemma_lex_trans, lemma_lex_trichotomy, str_lex_lt};

verus! {

/// Two records fall in the same merge group: same namespace and tag name.
/// The tag type plays no part in grouping.
pub open spec fn key_eq(a: TagDataModel, b: TagDataModel) -> bool {
    a.namespace == b.namespace && a.tag_name == b.tag_name
}

/// The identifiers of a record's values, in list order.
pub open spec fn record_ids(t: TagDataModel) -> Seq<Seq<char>> {
    t.tag_data.values.map_values(|v: TagValueModel| v.id())
}

/// Inserts an identifier into an ascending duplicate-free list, keeping it
/// ascending and duplicate-free.
pub open spec fn insert_sorted(ids: Seq<Seq<char>>, id: Seq<char>) -> Seq<Seq<char>>
    decreases ids.len(),
{
    if ids.len() == 0 {
        seq![id]
    } else if id == ids[0] {
        ids
    } else if lex_lt(id, ids[0]) {
        seq![id] + ids
    } else {
        seq![ids[0]] + insert_sorted(ids.drop_first(), id)
    }
}

/// Inserts every identifier of `ids`, left to right, into `acc`.
pub open spec fn insert_all(acc: Seq<Seq<char>>, ids: Seq<Seq<char>>) -> Seq<Seq<char>>
    decreases ids.len(),
{
    if ids.len() == 0 {
        acc
    } else {
        insert_sorted(insert_all(acc, ids.drop_last()), ids.last())
    }
}

/// Ascending and therefore duplicate-free.
pub open spec fn sorted_unique(ids: Seq<Seq<char>>) -> bool {
    forall|i: int, j: int| 0 <= i < j < ids.len() ==> lex_lt(ids[i], ids[j])
}

/// All identifiers contributed by the group of `a` within `flat`.
pub open spec fn group_ids(flat: Seq<TagDataModel>, a: TagDataModel) -> Seq<Seq<char>> {
    flat.filter(|t: TagDataModel| key_eq(t, a)).flat_map(|t: TagDataModel| record_ids(t))
}

/// The value list of the merged record for the group of `a`.
pub open spec fn merged_values(flat: Seq<TagDataModel>, a: TagDataModel) -> Seq<TagValueModel> {
    insert_all(Seq::empty(), group_ids(flat, a)).map_values(
        |id: Seq<char>| TagValueModel::Plain { id },
    )
}

/// The merged record for the group of `a`: identity fields of the group's
/// first member, `replace` cleared, values deduplicated and sorted.
pub open spec fn merged_record(flat: Seq<TagDataModel>, a: TagDataModel) -> TagDataModel {
    TagDataModel {
        namespace: a.namespace,
        tag_type: a.tag_type,
        tag_name: a.tag_name,
        tag_data: TagModel { replace: false, values: merged_values(flat, a) },
    }
}

/// Some record of `s` shares `a`'s group key.
pub open spec fn seen_key(s: Seq<TagDataModel>, a: TagDataModel) -> bool {
    exists|j: int| 0 <= j < s.len() && key_eq(s[j], a)
}

/// The first member of each group, in order of first occurrence.
pub open spec fn firsts(s: Seq<TagDataModel>) -> Seq<TagDataModel>
    decreases s.len(),
{
    if s.len() == 0 {
        Seq::empty()
    } else if seen_key(s.drop_last(), s.last()) {
        firsts(s.drop_last())
    } else {
        firsts(s.drop_last()).push(s.last())
    }
}

/// What `merge` computes from the flattened input.
pub open spec fn merge_spec(flat: Seq<TagDataModel>) -> Seq<TagDataModel> {
    firsts(flat).map_values(|a: TagDataModel| merged_record(flat, a))
}

/// The concatenation of all sources, in order.
pub open spec fn concat_all(s: Seq<Seq<TagDataModel>>) -> Seq<TagDataModel>
    decreases s.len(),
{
    if s.len() == 0 {
        Seq::empty()
    } else {
        concat_all(s.drop_last()) + s.last()
    }
}

/// The models of a list of sources.
pub open spec fn sources_model(tags: Seq<Vec<MinecraftTagData>>) -> Seq<Seq<TagDataModel>> {
    tags.map_values(|v: Vec<MinecraftTagData>| v@.map_values(|t: MinecraftTagData| t@))
}

/// `insert_sorted` at the split point `p`: every identifier before `p` is
/// below `id` and the one at `p`, if any, is not.
proof fn lemma_insert_sorted_split(ids: Seq<Seq<char>>, id: Seq<char>, p: int)
    requires
        0 <= p <= ids.len(),
        forall|j: int| 0 <= j < p ==> lex_lt(ids[j], id),
        p < ids.len() ==> !lex_lt(ids[p], id),
    ensures
        insert_sorted(ids, id) == if p < ids.len() && ids[p] == id {
            ids
        } else {
            ids.subrange(0, p) + seq![id] + ids.subrange(p, ids.len() as int)
        },
    decreases ids.len(),
{
    if ids.len() == 0 {
        assert(insert_sorted(ids, id) =~= ids.subrange(0, p) + seq![id] + ids.subrange(
            p,
            ids.len() as int,
        ));
    } else if p == 0 {
        if ids[0] == id {
        } else {
            lemma_lex_trichotomy(id, ids[0]);
            assert(lex_lt(id, ids[0]));
            assert(insert_sorted(ids, id) =~= ids.subrange(0, 0) + seq![id] + ids.subrange(
                0,
                ids.len() as int,
            ));
        }
    } else {
        lemma_lex_irrefl(ids[0]);
        assert(lex_lt(ids[0], id));
        assert(ids[0] != id);
        if lex_lt(id, ids[0]) {
            lemma_lex_trans(id, ids[0], id);
            lemma_lex_irrefl(id);
            assert(false);
        }
        let rest = ids.drop_first();
        assert(forall|j: int| 0 <= j < p - 1 ==> rest[j] == ids[j + 1] && lex_lt(rest[j], id));
        lemma_insert_sorted_split(rest, id, p - 1);
        if p < ids.len() && ids[p] == id {
            assert(rest[p - 1] == id);
            assert(insert_sorted(rest, id) == rest);
            assert(insert_sorted(ids, id) =~= ids);
        } else {
            assert(insert_sorted(ids, id) =~= ids.subrange(0, p) + seq![id] + ids.subrange(
                p,
                ids.len() as int,
            ));
        }
    }
}

/// Inserting keeps the list ascending; afterwards it holds exactly the old
/// identifiers and `id`.
proof fn lemma_insert_sorted_props(ids: Seq<Seq<char>>, id: Seq<char>)
    requires
        sorted_unique(ids),
    ensures
        sorted_unique(insert_sorted(ids, id)),
        forall|x: Seq<char>| #[trigger] insert_sorted(ids, id).contains(x) <==> (ids.contains(x)
            || x == id),
    decreases ids.len(),
{
    if ids.len() == 0 {
        assert forall|x: Seq<char>| #[trigger]
            insert_sorted(ids, id).contains(x) <==> (ids.contains(x) || x == id) by {
            assert(insert_sorted(ids, id) == seq![id]);
            assert(seq![id][0] == id);
            if x == id {
                assert(insert_sorted(ids, id).contains(x));
            }
        }
    } else if id == ids[0] {
        assert forall|x: Seq<char>| #[trigger]
            insert_sorted(ids, id).contains(x) <==> (ids.contains(x) || x == id) by {
            if x == id {
                assert(ids[0] == x);
                assert(ids.contains(x));
            }
        }
    } else if lex_lt(id, ids[0]) {
        let out = seq![id] + ids;
        assert forall|i: int, j: int| 0 <= i < j < out.len() implies lex_lt(out[i], out[j]) by {
            if i == 0 {
                if j > 1 {
                    lemma_lex_trans(id, ids[0], ids[j - 1]);
                }
            }
        }
        assert forall|x: Seq<char>| #[trigger] out.contains(x) <==> (ids.contains(x) || x == id) by {
            if out.contains(x) {
                let k = choose|k: int| 0 <= k < out.len() && out[k] == x;
                if k == 0 {
                } else {
                    assert(ids[k - 1] == x);
                }
            }
            if ids.contains(x) {
                let k = choose|k: int| 0 <= k < ids.len() && ids[k] == x;
                assert(out[k + 1] == x);
            }
            if x == id {
                assert(out[0] == x);
            }
        }
    } else {
        lemma_lex_trichotomy(id, ids[0]);
        assert(lex_lt(ids[0], id));
        let rest = ids.drop_first();
        assert(forall|i: int, j: int|
            0 <= i < j < rest.len() ==> rest[i] == ids[i + 1] && rest[j] == ids[j + 1]);
        assert(sorted_unique(rest));
        lemma_insert_sorted_props(rest, id);
        let sub = insert_sorted(rest, id);
        let out = seq![ids[0]] + sub;
        assert(insert_sorted(ids, id) == out);
        assert forall|i: int, j: int| 0 <= i < j < out.len() implies lex_lt(out[i], out[j]) by {
            if i == 0 {
                assert(sub.contains(sub[j - 1]));
                if sub[j - 1] == id {
                } else {
                    assert(rest.contains(sub[j - 1]));
                    let k = choose|k: int| 0 <= k < rest.len() && rest[k] == sub[j - 1];
                    assert(rest[k] == ids[k + 1]);
                    assert(lex_lt(ids[0], ids[k + 1]));
                }
            } else {
                assert(lex_lt(sub[i - 1], sub[j - 1]));
            }
        }
        assert forall|x: Seq<char>| #[trigger] out.contains(x) <==> (ids.contains(x) || x == id) by {
            if out.contains(x) {
                let k = choose|k: int| 0 <= k < out.len() && out[k] == x;
                if k == 0 {
                    assert(ids[0] == x);
                    assert(ids.contains(x));
                } else {
                    assert(sub[k - 1] == x);
                    assert(sub.contains(x));
                    if rest.contains(x) {
                        let m = choose|m: int| 0 <= m < rest.len() && rest[m] == x;
                        assert(ids[m + 1] == x);
                        assert(ids.contains(x));
                    }
                }
            }
            if ids.contains(x) {
                let k = choose|k: int| 0 <= k < ids.len() && ids[k] == x;
                if k == 0 {
                    assert(out[0] == x);
                } else {
                    assert(rest[k - 1] == x);
                    assert(rest.contains(x));
                    assert(sub.contains(x));
                    let m = choose|m: int| 0 <= m < sub.len() && sub[m] == x;
                    assert(out[m + 1] == x);
                }
            }
            if x == id {
                assert(sub.contains(x));
                let m = choose|m: int| 0 <= m < sub.len() && sub[m] == x;
                assert(out[m + 1] == x);
            }
        }
    }
}

/// `insert_all` keeps the accumulator ascending; afterwards it holds exactly
/// the old identifiers and those of `ids`.
proof fn lemma_insert_all_props(acc: Seq<Seq<char>>, ids: Seq<Seq<char>>)
    requires
        sorted_unique(acc),
    ensures
        sorted_unique(insert_all(acc, ids)),
        forall|x: Seq<char>| #[trigger] insert_all(acc, ids).contains(x) <==> (acc.contains(x)
            || ids.contains(x)),
    decreases ids.len(),
{
    if ids.len() == 0 {
        assert forall|x: Seq<char>| #[trigger]
            insert_all(acc, ids).contains(x) <==> (acc.contains(x) || ids.contains(x)) by {}
    } else {
        let front = ids.drop_last();
        lemma_insert_all_props(acc, front);
        lemma_insert_sorted_props(insert_all(acc, front), ids.last());
        assert forall|x: Seq<char>| #[trigger]
            insert_all(acc, ids).contains(x) <==> (acc.contains(x) || ids.contains(x)) by {
            if ids.contains(x) {
                let k = choose|k: int| 0 <= k < ids.len() && ids[k] == x;
                if k < ids.len() - 1 {
                    assert(front[k] == x);
                    assert(front.contains(x));
                } else {
                    assert(ids.last() == x);
                }
            }
            if front.contains(x) {
                let k = choose|k: int| 0 <= k < front.len() && front[k] == x;
                assert(ids[k] == x);
                assert(ids.contains(x));
            }
            if x == ids.last() {
                assert(ids.contains(x));
            }
        }
    }
}

/// Every entry of `firsts` is a record of the input, and no two entries
/// share a group key.
proof fn lemma_firsts_distinct(s: Seq<TagDataModel>)
    ensures
        forall|k: int| 0 <= k < firsts(s).len() ==> s.contains(#[trigger] firsts(s)[k]),
        forall|i: int, j: int|
            0 <= i < j < firsts(s).len() ==> !key_eq(firsts(s)[i], firsts(s)[j]),
    decreases s.len(),
{
    if s.len() == 0 {
    } else {
        let front = s.drop_last();
        lemma_firsts_distinct(front);
        assert(forall|k: int| 0 <= k < front.len() ==> front[k] == s[k]);
        if seen_key(front, s.last()) {
            assert(firsts(s) == firsts(front));
            assert forall|k: int| 0 <= k < firsts(s).len() implies s.contains(
                #[trigger] firsts(s)[k],
            ) by {
                assert(firsts(s)[k] == firsts(front)[k]);
                assert(front.contains(firsts(front)[k]));
                let w = choose|w: int| 0 <= w < front.len() && front[w] == firsts(s)[k];
                assert(s[w] == firsts(s)[k]);
            }
        } else {
            let fr = firsts(front);
            assert(firsts(s) == fr.push(s.last()));
            assert forall|k: int| 0 <= k < firsts(s).len() implies s.contains(
                #[trigger] firsts(s)[k],
            ) by {
                if k < fr.len() {
                    assert(firsts(s)[k] == fr[k]);
                    assert(front.contains(fr[k]));
                    let w = choose|w: int| 0 <= w < front.len() && front[w] == fr[k];
                    assert(s[w] == firsts(s)[k]);
                } else {
                    assert(firsts(s)[k] == s.last());
                    assert(s[s.len() - 1] == s.last());
                }
            }
            assert forall|i: int, j: int| 0 <= i < j < firsts(s).len() implies !key_eq(
                firsts(s)[i],
                firsts(s)[j],
            ) by {
                if j == fr.len() {
                    assert(firsts(s)[i] == fr[i]);
                    assert(front.contains(fr[i]));
                    let w = choose|w: int| 0 <= w < front.len() && front[w] == fr[i];
                    if key_eq(firsts(s)[i], firsts(s)[j]) {
                        assert(key_eq(front[w], s.last()));
                        assert(seen_key(front, s.last()));
                    }
                }
            }
        }
    }
}

/// On a list whose group keys are pairwise distinct, `firsts` keeps
/// everything.
proof fn lemma_firsts_of_distinct(s: Seq<TagDataModel>)
    requires
        forall|i: int, j: int| 0 <= i < j < s.len() ==> !key_eq(s[i], s[j]),
    ensures
        firsts(s) == s,
    decreases s.len(),
{
    if s.len() == 0 {
        assert(firsts(s) =~= s);
    } else {
        let front = s.drop_last();
        assert(forall|k: int| 0 <= k < front.len() ==> front[k] == s[k]);
        if seen_key(front, s.last()) {
            let w = choose|w: int| 0 <= w < front.len() && key_eq(front[w], s.last());
            assert(key_eq(s[w], s[s.len() - 1]));
            assert(false);
        }
        lemma_firsts_of_distinct(front);
        assert(firsts(s) =~= s);
    }
}

/// A filter that holds at exactly one index keeps exactly that record.
proof fn lemma_filter_singleton(s: Seq<TagDataModel>, p: spec_fn(TagDataModel) -> bool, k: int)
    requires
        0 <= k < s.len(),
        p(s[k]),
        forall|j: int| 0 <= j < s.len() && j != k ==> !p(#[trigger] s[j]),
    ensures
        s.filter(p) == seq![s[k]],
    decreases s.len(),
{
    broadcast use vstd::seq::Seq::lemma_filter_push;

    let front = s.drop_last();
    assert(s =~= front.push(s.last()));
    if k == s.len() - 1 {
        assert(forall|j: int| 0 <= j < front.len() ==> front[j] == s[j] && !p(#[trigger] front[j]));
        front.lemma_all_neg_filter_empty(p);
        assert(s.filter(p) =~= seq![s[k]]);
    } else {
        assert(!p(s.last()));
        assert(forall|j: int| 0 <= j < front.len() ==> front[j] == s[j]);
        lemma_filter_singleton(front, p, k);
        assert(s.filter(p) == front.filter(p));
    }
}

/// Inserting an already ascending list into an empty accumulator returns it
/// unchanged.
proof fn lemma_insert_all_sorted_id(s: Seq<Seq<char>>)
    requires
        sorted_unique(s),
    ensures
        insert_all(Seq::empty(), s) == s,
    decreases s.len(),
{
    if s.len() == 0 {
        assert(insert_all(Seq::empty(), s) =~= s);
    } else {
        let front = s.drop_last();
        assert(forall|k: int| 0 <= k < front.len() ==> front[k] == s[k]);
        lemma_insert_all_sorted_id(front);
        lemma_insert_sorted_split(front, s.last(), front.len() as int);
        assert(insert_all(Seq::empty(), s) =~= s);
    }
}

/// An identifier is in a group's contribution exactly when some group member
/// lists it.
proof fn lemma_group_ids_membership(flat: Seq<TagDataModel>, a: TagDataModel, x: Seq<char>)
    ensures
        group_ids(flat, a).contains(x) <==> exists|g: int|
            0 <= g < flat.len() && key_eq(#[trigger] flat[g], a) && record_ids(flat[g]).contains(
                x,
            ),
    decreases flat.len(),
{
    broadcast use vstd::seq::Seq::lemma_filter_push;

    let p = |t: TagDataModel| key_eq(t, a);
    if flat.len() == 0 {
        flat.lemma_all_neg_filter_empty(p);
        assert(flat.filter(p) =~= Seq::<TagDataModel>::empty());
        assert(group_ids(flat, a) =~= Seq::<Seq<char>>::empty());
    } else {
        let front = flat.drop_last();
        assert(forall|k: int| 0 <= k < front.len() ==> front[k] == flat[k]);
        lemma_group_ids_membership(front, a, x);
        assert(flat =~= front.push(flat.last()));
        if p(flat.last()) {
            front.filter(p).lemma_flat_map_push(|t: TagDataModel| record_ids(t), flat.last());
            let cat = group_ids(front, a) + record_ids(flat.last());
            assert(group_ids(flat, a) == cat);
            if group_ids(flat, a).contains(x) {
                let w = choose|w: int| 0 <= w < cat.len() && cat[w] == x;
                if w < group_ids(front, a).len() {
                    assert(group_ids(front, a)[w] == x);
                    assert(group_ids(front, a).contains(x));
                    let g = choose|g: int|
                        0 <= g < front.len() && key_eq(#[trigger] front[g], a) && record_ids(
                            front[g],
                        ).contains(x);
                    assert(key_eq(flat[g], a) && record_ids(flat[g]).contains(x));
                } else {
                    let v = w - group_ids(front, a).len();
                    assert(record_ids(flat.last())[v] == x);
                    assert(record_ids(flat.last()).contains(x));
                    assert(key_eq(flat[flat.len() - 1], a) && record_ids(
                        flat[flat.len() - 1],
                    ).contains(x));
                }
            }
            if exists|g: int|
                0 <= g < flat.len() && key_eq(#[trigger] flat[g], a) && record_ids(
                    flat[g],
                ).contains(x) {
                let g = choose|g: int|
                    0 <= g < flat.len() && key_eq(#[trigger] flat[g], a) && record_ids(
                        flat[g],
                    ).contains(x);
                if g < flat.len() - 1 {
                    assert(key_eq(front[g], a) && record_ids(front[g]).contains(x));
                    assert(group_ids(front, a).contains(x));
                    let w = choose|w: int|
                        0 <= w < group_ids(front, a).len() && group_ids(front, a)[w] == x;
                    assert(cat[w] == x);
                } else {
                    let v = choose|v: int|
                        0 <= v < record_ids(flat.last()).len() && record_ids(flat.last())[v] == x;
                    assert(cat[group_ids(front, a).len() + v] == x);
                }
                assert(group_ids(flat, a).contains(x));
            }
        } else {
            assert(group_ids(flat, a) == group_ids(front, a));
            if exists|g: int|
                0 <= g < flat.len() && key_eq(#[trigger] flat[g], a) && record_ids(
                    flat[g],
                ).contains(x) {
                let g = choose|g: int|
                    0 <= g < flat.len() && key_eq(#[trigger] flat[g], a) && record_ids(
                        flat[g],
                    ).contains(x);
                assert(g != flat.len() - 1);
                assert(key_eq(front[g], a) && record_ids(front[g]).contains(x));
            }
            if group_ids(front, a).contains(x) {
                let g = choose|g: int|
                    0 <= g < front.len() && key_eq(#[trigger] front[g], a) && record_ids(
                        front[g],
                    ).contains(x);
                assert(key_eq(flat[g], a) && record_ids(flat[g]).contains(x));
            }
        }
    }
}

/// The catalog lists the groups' keys pairwise distinct: no two merged
/// records share a namespace and tag name.
pub proof fn lemma_merge_distinct_keys(flat: Seq<TagDataModel>)
    ensures
        merge_spec(flat).len() == firsts(flat).len(),
        forall|i: int, j: int|
            0 <= i < j < merge_spec(flat).len() ==> !key_eq(
                merge_spec(flat)[i],
                merge_spec(flat)[j],
            ),
{
    lemma_firsts_distinct(flat);
    assert(merge_spec(flat).len() == firsts(flat).len());
    assert forall|i: int, j: int| 0 <= i < j < merge_spec(flat).len() implies !key_eq(
        merge_spec(flat)[i],
        merge_spec(flat)[j],
    ) by {
        assert(merge_spec(flat)[i] == merged_record(flat, firsts(flat)[i]));
        assert(merge_spec(flat)[j] == merged_record(flat, firsts(flat)[j]));
        assert(!key_eq(firsts(flat)[i], firsts(flat)[j]));
    }
}

/// Records sharing a namespace and tag name are united: the catalog holds
/// exactly one record of their group, and its values hold an identifier
/// exactly when some group member lists it, ascending and duplicate-free.
pub proof fn lemma_merge_groups(flat: Seq<TagDataModel>, i: int)
    requires
        0 <= i < flat.len(),
    ensures
        exists|k: int|
            0 <= k < merge_spec(flat).len() && key_eq(#[trigger] merge_spec(flat)[k], flat[i]),
        forall|k1: int, k2: int|
            0 <= k1 < k2 < merge_spec(flat).len() ==> !(key_eq(merge_spec(flat)[k1], flat[i])
                && key_eq(merge_spec(flat)[k2], flat[i])),
        forall|k: int|
            0 <= k < merge_spec(flat).len() && key_eq(#[trigger] merge_spec(flat)[k], flat[i])
                ==> sorted_unique(record_ids(merge_spec(flat)[k])) && (forall|x: Seq<char>|
                #[trigger] record_ids(merge_spec(flat)[k]).contains(x) <==> exists|g: int|
                    0 <= g < flat.len() && key_eq(#[trigger] flat[g], flat[i]) && record_ids(
                        flat[g],
                    ).contains(x)),
{
    let ms = merge_spec(flat);
    lemma_firsts_keys(flat, flat[i]);
    assert(key_eq(flat[i], flat[i]));
    assert(seen_key(flat, flat[i]));
    lemma_merge_distinct_keys(flat);
    let k0 = choose|k: int| 0 <= k < firsts(flat).len() && key_eq(firsts(flat)[k], flat[i]);
    assert(ms[k0] == merged_record(flat, firsts(flat)[k0]));
    assert(key_eq(ms[k0], flat[i]));
    assert forall|k1: int, k2: int| 0 <= k1 < k2 < ms.len() implies !(key_eq(ms[k1], flat[i])
        && key_eq(ms[k2], flat[i])) by {
        assert(!key_eq(ms[k1], ms[k2]));
    }
    assert forall|k: int|
        0 <= k < ms.len() && key_eq(#[trigger] ms[k], flat[i]) implies sorted_unique(
        record_ids(ms[k]),
    ) && (forall|x: Seq<char>| #[trigger]
        record_ids(ms[k]).contains(x) <==> exists|g: int|
            0 <= g < flat.len() && key_eq(#[trigger] flat[g], flat[i]) && record_ids(
                flat[g],
            ).contains(x)) by {
        assert(ms[k] == merged_record(flat, firsts(flat)[k]));
        let a = firsts(flat)[k];
        let sorted = insert_all(Seq::empty(), group_ids(flat, a));
        lemma_insert_all_props(Seq::empty(), group_ids(flat, a));
        assert forall|x: Seq<char>| #[trigger]
            record_ids(ms[k]).contains(x) <==> sorted.contains(x) by {
            let vals = sorted.map_values(|id: Seq<char>| TagValueModel::Plain { id });
            assert(record_ids(ms[k]) =~= sorted) by {
                assert forall|w: int| 0 <= w < vals.len() implies record_ids(ms[k])[w]
                    == sorted[w] by {
                    assert(vals[w] == TagValueModel::Plain { id: sorted[w] });
                }
            }
        }
        assert(sorted_unique(record_ids(ms[k]))) by {
            assert(record_ids(ms[k]) =~= sorted) by {
                let vals = sorted.map_values(|id: Seq<char>| TagValueModel::Plain { id });
                assert forall|w: int| 0 <= w < vals.len() implies record_ids(ms[k])[w]
                    == sorted[w] by {
                    assert(vals[w] == TagValueModel::Plain { id: sorted[w] });
                }
            }
        }
        assert forall|x: Seq<char>| #[trigger]
            sorted.contains(x) <==> exists|g: int|
                0 <= g < flat.len() && key_eq(#[trigger] flat[g], flat[i]) && record_ids(
                    flat[g],
                ).contains(x) by {
            lemma_group_ids_membership(flat, a, x);
            assert(group_ids(flat, a).contains(x) <==> sorted.contains(x));
            assert forall|g: int| 0 <= g < flat.len() implies (key_eq(flat[g], a) <==> key_eq(
                flat[g],
                flat[i],
            )) by {}
        }
    }
}

/// A single source flattens to itself, so `merge` on one source list
/// computes `merge_spec` of that source.
pub proof fn lemma_concat_singleton(r: Seq<TagDataModel>)
    ensures
        concat_all(seq![r]) == r,
{
    assert(seq![r].drop_last() =~= Seq::<Seq<TagDataModel>>::empty());
    assert(seq![r].last() == r);
    assert(concat_all(seq![r].drop_last()) == Seq::<TagDataModel>::empty());
    assert(concat_all(seq![r]) == Seq::<TagDataModel>::empty() + r);
    assert(Seq::<TagDataModel>::empty() + r =~= r);
}

/// Merging is idempotent: merging a catalog that `merge` produced, as the
/// one source, yields the same catalog.
pub proof fn lemma_merge_idempotent(flat: Seq<TagDataModel>)
    ensures
        merge_spec(merge_spec(flat)) == merge_spec(flat),
{
    let m = merge_spec(flat);
    lemma_merge_distinct_keys(flat);
    lemma_firsts_of_distinct(m);
    assert forall|k: int| 0 <= k < m.len() implies merged_record(m, m[k]) == m[k] by {
        assert(m[k] == merged_record(flat, firsts(flat)[k]));
        let a = firsts(flat)[k];
        let p = |t: TagDataModel| key_eq(t, m[k]);
        assert(p(m[k]));
        assert forall|j: int| 0 <= j < m.len() && j != k implies !p(#[trigger] m[j]) by {
            if j < k {
                assert(!key_eq(m[j], m[k]));
            } else {
                assert(!key_eq(m[k], m[j]));
            }
        }
        lemma_filter_singleton(m, p, k);
        assert(m.filter(p) == seq![m[k]]);
        let f = |t: TagDataModel| record_ids(t);
        assert(group_ids(m, m[k]) =~= record_ids(m[k])) by {
            let single = seq![m[k]];
            assert(single.len() == 1);
            single.lemma_flat_map_singleton(f);
            assert(single[0] == m[k]);
        }
        let sorted = insert_all(Seq::empty(), group_ids(flat, a));
        lemma_insert_all_props(Seq::empty(), group_ids(flat, a));
        assert(record_ids(m[k]) =~= sorted) by {
            let vals = sorted.map_values(|id: Seq<char>| TagValueModel::Plain { id });
            assert forall|w: int| 0 <= w < vals.len() implies record_ids(m[k])[w] == sorted[w] by {
                assert(vals[w] == TagValueModel::Plain { id: sorted[w] });
            }
        }
        lemma_insert_all_sorted_id(record_ids(m[k]));
        assert(merged_values(m, m[k]) =~= m[k].tag_data.values) by {
            assert(insert_all(Seq::empty(), group_ids(m, m[k])) == record_ids(m[k]));
            let vals = record_ids(m[k]).map_values(|id: Seq<char>| TagValueModel::Plain { id });
            assert forall|w: int| 0 <= w < vals.len() implies vals[w]
                == m[k].tag_data.values[w] by {
                assert(record_ids(m[k])[w] == sorted[w]);
                assert(m[k].tag_data.values[w] == TagValueModel::Plain { id: sorted[w] });
            }
        }
    }
    assert(merge_spec(m) =~= m) by {
        assert forall|k: int| 0 <= k < m.len() implies merge_spec(m)[k] == m[k] by {
            assert(merge_spec(m)[k] == merged_record(m, firsts(m)[k]));
            assert(firsts(m)[k] == m[k]);
        }
    }
}

/// The models of a list of owned strings.
pub open spec fn str_models(s: Seq<String>) -> Seq<Seq<char>> {
    s.map_values(|x: String| x@)
}

/// The models of a list of borrowed records.
pub open spec fn ref_models(s: Seq<&MinecraftTagData>) -> Seq<TagDataModel> {
    s.map_values(|t: &MinecraftTagData| t@)
}

/// `firsts` keeps exactly the group keys of its input.
proof fn lemma_firsts_keys(s: Seq<TagDataModel>, t: TagDataModel)
    ensures
        seen_key(firsts(s), t) <==> seen_key(s, t),
    decreases s.len(),
{
    if s.len() == 0 {
    } else {
        let front = s.drop_last();
        lemma_firsts_keys(front, t);
        assert(forall|j: int| 0 <= j < front.len() ==> front[j] == s[j]);
        if seen_key(front, s.last()) {
            if seen_key(s, t) && !seen_key(front, t) {
                let j = choose|j: int| 0 <= j < s.len() && key_eq(s[j], t);
                assert(j == s.len() - 1);
                let k = choose|k: int| 0 <= k < front.len() && key_eq(front[k], s.last());
                assert(key_eq(front[k], t));
                assert(seen_key(front, t));
            }
            if seen_key(front, t) {
                let j = choose|j: int| 0 <= j < front.len() && key_eq(front[j], t);
                assert(key_eq(s[j], t));
                assert(seen_key(s, t));
            }
        } else {
            let fr = firsts(front);
            assert(firsts(s) == fr.push(s.last()));
            if seen_key(firsts(s), t) {
                let j = choose|j: int| 0 <= j < firsts(s).len() && key_eq(firsts(s)[j], t);
                if j < fr.len() {
                    assert(fr[j] == firsts(s)[j]);
                    assert(seen_key(fr, t));
                    let k = choose|k: int| 0 <= k < front.len() && key_eq(front[k], t);
                    assert(key_eq(s[k], t));
                } else {
                    assert(firsts(s)[j] == s.last());
                    assert(key_eq(s[s.len() - 1], t));
                }
                assert(seen_key(s, t));
            }
            if seen_key(s, t) {
                let j = choose|j: int| 0 <= j < s.len() && key_eq(s[j], t);
                if j < s.len() - 1 {
                    assert(key_eq(front[j], t));
                    assert(seen_key(front, t));
                    let k = choose|k: int| 0 <= k < fr.len() && key_eq(fr[k], t);
                    assert(firsts(s)[k] == fr[k]);
                } else {
                    assert(firsts(s)[fr.len() as int] == s.last());
                }
                assert(seen_key(firsts(s), t));
            }
        }
    }
}

/// Whether two records share a group key.
fn key_eq_exec(a: &MinecraftTagData, b: &MinecraftTagData) -> (r: bool)
    ensures
        r == key_eq(a@, b@),
{
    a.namespace == b.namespace && a.tag_name == b.tag_name
}

/// The identifier of one value, as an owned string.
fn value_id(v: &MinecraftTagValue) -> (r: String)
    ensures
        r@ == v@.id(),
{
    match v {
        MinecraftTagValue::Plain(s) => s.clone(),
        MinecraftTagValue::Complex { id, .. } => id.clone(),
    }
}

/// Inserts an identifier into an ascending duplicate-free list of strings.
fn insert_id(ids: &mut Vec<String>, id: String)
    requires
        sorted_unique(str_models(old(ids)@)),
    ensures
        str_models(final(ids)@) == insert_sorted(str_models(old(ids)@), id@),
        sorted_unique(str_models(final(ids)@)),
{
    let ghost orig = str_models(ids@);
    proof {
        lemma_insert_sorted_props(orig, id@);
    }
    let mut p: usize = 0;
    while p < ids.len() && str_lex_lt(&ids[p], &id)
        invariant
            p <= ids@.len(),
            str_models(ids@) == orig,
            forall|j: int| 0 <= j < p ==> lex_lt(orig[j], id@),
        decreases ids@.len() - p,
    {
        proof {
            assert(orig[p as int] == ids@[p as int]@);
        }
        p = p + 1;
    }
    proof {
        assert(p < ids@.len() ==> orig[p as int] == ids@[p as int]@);
        lemma_insert_sorted_split(orig, id@, p as int);
    }
    if p < ids.len() {
        if ids[p] == id {
            return ;
        }
    }
    ids.insert(p, id);
    proof {
        assert forall|k: int| 0 <= k < ids@.len() implies str_models(ids@)[k] == (orig.subrange(
            0,
            p as int,
        ) + seq![id@] + orig.subrange(p as int, orig.len() as int))[k] by {
            assert(str_models(ids@)[k] == ids@[k]@);
            if k < p {
                assert(ids@[k] == old(ids)@[k]);
                assert(orig.subrange(0, p as int)[k] == orig[k]);
            } else if k == p {
            } else {
                assert(ids@[k] == old(ids)@[k - 1]);
                assert(orig.subrange(p as int, orig.len() as int)[k - p - 1] == orig[k - 1]);
            }
        }
        assert(str_models(ids@) =~= orig.subrange(0, p as int) + seq![id@] + orig.subrange(
            p as int,
            orig.len() as int,
        ));
    }
}

/// Merges the per-source record lists into one catalog: one record per
/// group of equal namespace and tag name, in order of first occurrence, its
/// identity fields taken from the group's first member, its `replace` flag
/// cleared, and its values the normalized identifiers of every member,
/// deduplicated and sorted ascending.
#[verifier::loop_isolation(false)]
pub fn merge(tags: Vec<Vec<MinecraftTagData>>) -> (r: Vec<MinecraftTagData>)
    ensures
        r@.map_values(|t: MinecraftTagData| t@) == merge_spec(concat_all(sources_model(tags@))),
{
    let mut flat: Vec<&MinecraftTagData> = Vec::new();
    let mut i: usize = 0;
    while i < tags.len()
        invariant
            i <= tags@.len(),
            ref_models(flat@) == concat_all(sources_model(tags@).take(i as int)),
        decreases tags@.len() - i,
    {
        let source = &tags[i];
        let mut j: usize = 0;
        while j < source.len()
            invariant
                j <= source@.len(),
                i < tags@.len(),
                source == &tags@[i as int],
                ref_models(flat@) == concat_all(sources_model(tags@).take(i as int)) + source@.map_values(
                    |t: MinecraftTagData| t@,
                ).take(j as int),
            decreases source@.len() - j,
        {
            let ghost prev = flat@;
            flat.push(&source[j]);
            proof {
                broadcast use vstd::seq::Seq::lemma_push_map_commute;

                assert(ref_models(flat@) =~= ref_models(prev).push(source@[j as int]@));
                assert(source@.map_values(|t: MinecraftTagData| t@).take(j + 1) =~= source@.map_values(
                    |t: MinecraftTagData| t@,
                ).take(j as int).push(source@[j as int]@));
                assert(ref_models(flat@) =~= concat_all(sources_model(tags@).take(i as int))
                    + source@.map_values(|t: MinecraftTagData| t@).take(j + 1));
            }
            j = j + 1;
        }
        proof {
            let sm = sources_model(tags@);
            assert(sm[i as int] == tags@[i as int]@.map_values(|t: MinecraftTagData| t@));
            assert(source@.map_values(|t: MinecraftTagData| t@).take(source@.len() as int)
                =~= sm[i as int]);
            assert(sm.take(i + 1).drop_last() =~= sm.take(i as int));
            assert(sm.take(i + 1).last() == sm[i as int]);
            assert(concat_all(sm.take(i + 1)) == concat_all(sm.take(i as int)) + sm[i as int]);
        }
        i = i + 1;
    }
    let ghost fm = ref_models(flat@);
    proof {
        assert(sources_model(tags@).take(tags@.len() as int) =~= sources_model(tags@));
        assert(fm == concat_all(sources_model(tags@)));
    }
    let mut merged: Vec<MinecraftTagData> = Vec::new();
    let mut e: usize = 0;
    while e < flat.len()
        invariant
            e <= flat@.len(),
            ref_models(flat@) == fm,
            merged@.map_values(|t: MinecraftTagData| t@) == firsts(fm.take(e as int)).map_values(
                |a: TagDataModel| merged_record(fm, a),
            ),
            forall|k: int| 0 <= k < merged@.len() ==> key_eq(
                #[trigger] merged@[k]@,
                firsts(fm.take(e as int))[k],
            ),
        decreases flat@.len() - e,
    {
        let ele = flat[e];
        proof {
            assert(fm[e as int] == flat@[e as int]@);
        }
        let mut found = false;
        let mut w: usize = 0;
        while w < merged.len()
            invariant
                w <= merged@.len(),
                found == exists|k: int|
                    0 <= k < w && #[trigger] key_eq(merged@[k]@, flat@[e as int]@),
                e < flat@.len(),
                ref_models(flat@) == fm,
            decreases merged@.len() - w,
        {
            if key_eq_exec(&merged[w], ele) {
                found = true;
                proof {
                    assert(key_eq(merged@[w as int]@, flat@[e as int]@));
                }
            }
            w = w + 1;
        }
        proof {
            let mm = merged@.map_values(|t: MinecraftTagData| t@);
            let fs = firsts(fm.take(e as int));
            lemma_firsts_keys(fm.take(e as int), fm[e as int]);
            assert(mm.len() == merged@.len());
            assert(mm.len() == fs.len());
            if found {
                let k = choose|k: int| 0 <= k < merged@.len() && key_eq(merged@[k]@, fm[e as int]);
                assert(key_eq(merged@[k]@, fs[k]));
                assert(key_eq(fs[k], fm[e as int]));
                assert(seen_key(fs, fm[e as int]));
            } else {
                if seen_key(fs, fm[e as int]) {
                    let k = choose|k: int| 0 <= k < fs.len() && key_eq(fs[k], fm[e as int]);
                    assert(key_eq(merged@[k]@, fs[k]));
                    assert(key_eq(merged@[k]@, fm[e as int]));
                }
            }
            assert(found == seen_key(fm.take(e as int), fm[e as int]));
            assert(fm.take(e + 1).drop_last() =~= fm.take(e as int));
            assert(fm.take(e + 1).last() == fm[e as int]);
        }
        if !found {
            let mut ids: Vec<String> = Vec::new();
            let mut m: usize = 0;
            while m < flat.len()
                invariant
                    m <= flat@.len(),
                    e < flat@.len(),
                    ref_models(flat@) == fm,
                    sorted_unique(str_models(ids@)),
                    str_models(ids@) == insert_all(
                        Seq::empty(),
                        group_ids(fm.take(m as int), fm[e as int]),
                    ),
                decreases flat@.len() - m,
            {
                proof {
                    broadcast use vstd::seq::Seq::lemma_filter_push;

                    assert(fm[m as int] == flat@[m as int]@);
                    assert(fm.take(m + 1).drop_last() =~= fm.take(m as int));
                    assert(fm.take(m + 1) =~= fm.take(m as int).push(fm[m as int]));
                }
                if key_eq_exec(flat[m], ele) {
                    let values = &flat[m].tag_data.values;
                    let mut k: usize = 0;
                    proof {
                        assert(record_ids(fm[m as int]).take(0) =~= Seq::<Seq<char>>::empty());
                        assert(group_ids(fm.take(m as int), fm[e as int]) + record_ids(
                            fm[m as int],
                        ).take(0) =~= group_ids(fm.take(m as int), fm[e as int]));
                    }
                    while k < values.len()
                        invariant
                            k <= values@.len(),
                            m < flat@.len(),
                            e < flat@.len(),
                            ref_models(flat@) == fm,
                            values == &flat@[m as int].tag_data.values,
                            sorted_unique(str_models(ids@)),
                            str_models(ids@) == insert_all(
                                Seq::empty(),
                                group_ids(fm.take(m as int), fm[e as int]) + record_ids(
                                    fm[m as int],
                                ).take(k as int),
                            ),
                        decreases values@.len() - k,
                    {
                        let id = value_id(&values[k]);
                        proof {
                            assert(record_ids(fm[m as int])[k as int] == fm[m as int].tag_data.values[k as int].id());
                            assert(fm[m as int].tag_data.values[k as int] == values@[k as int]@);
                            assert(id@ == record_ids(fm[m as int])[k as int]);
                        }
                        let ghost before = group_ids(fm.take(m as int), fm[e as int]) + record_ids(
                            fm[m as int],
                        ).take(k as int);
                        insert_id(&mut ids, id);
                        proof {
                            let after = group_ids(fm.take(m as int), fm[e as int]) + record_ids(
                                fm[m as int],
                            ).take(k + 1);
                            assert(after =~= before.push(record_ids(fm[m as int])[k as int]));
                            assert(before.push(record_ids(fm[m as int])[k as int]).drop_last()
                                =~= before);
                            assert(insert_all(
                                Seq::empty(),
                                before.push(record_ids(fm[m as int])[k as int]),
                            ) == insert_sorted(
                                insert_all(Seq::empty(), before),
                                record_ids(fm[m as int])[k as int],
                            ));
                        }
                        k = k + 1;
                    }
                    proof {
                        broadcast use vstd::seq::Seq::lemma_filter_push;

                        assert(record_ids(fm[m as int]).take(record_ids(fm[m as int]).len() as int)
                            =~= record_ids(fm[m as int]));
                        let pred = |t: TagDataModel| key_eq(t, fm[e as int]);
                        assert(pred(fm[m as int]));
                        assert(fm.take(m + 1).filter(pred) == fm.take(m as int).filter(pred).push(
                            fm[m as int],
                        ));
                        fm.take(m as int).filter(pred).lemma_flat_map_push(
                            |t: TagDataModel| record_ids(t),
                            fm[m as int],
                        );
                        assert(group_ids(fm.take(m + 1), fm[e as int]) =~= group_ids(
                            fm.take(m as int),
                            fm[e as int],
                        ) + record_ids(fm[m as int]));
                    }
                } else {
                    proof {
                        broadcast use vstd::seq::Seq::lemma_filter_push;

                        let pred = |t: TagDataModel| key_eq(t, fm[e as int]);
                        assert(!pred(fm[m as int]));
                        assert(fm.take(m + 1).filter(pred) == fm.take(m as int).filter(pred));
                        assert(group_ids(fm.take(m + 1), fm[e as int]) == group_ids(
                            fm.take(m as int),
                            fm[e as int],
                        ));
                    }
                }
                m = m + 1;
            }
            proof {
                assert(fm.take(fm.len() as int) =~= fm);
            }
            let mut vals: Vec<MinecraftTagValue> = Vec::new();
            let mut k: usize = 0;
            while k < ids.len()
                invariant
                    k <= ids@.len(),
                    vals@.map_values(|v: MinecraftTagValue| v@) == str_models(ids@).take(
                        k as int,
                    ).map_values(|id: Seq<char>| TagValueModel::Plain { id }),
                decreases ids@.len() - k,
            {
                let ghost prev = vals@;
                vals.push(MinecraftTagValue::Plain(ids[k].clone()));
                proof {
                    broadcast use vstd::seq::Seq::lemma_push_map_commute;

                    assert(str_models(ids@)[k as int] == ids@[k as int]@);
                    assert(str_models(ids@).take(k + 1) =~= str_models(ids@).take(k as int).push(
                        str_models(ids@)[k as int],
                    ));
                    assert(vals@.map_values(|v: MinecraftTagValue| v@) =~= str_models(ids@).take(
                        k + 1,
                    ).map_values(|id: Seq<char>| TagValueModel::Plain { id }));
                }
                k = k + 1;
            }
            let record = MinecraftTagData {
                namespace: ele.namespace.clone(),
                tag_type: ele.tag_type.clone(),
                tag_name: ele.tag_name.clone(),
                tag_data: MinecraftTag { replace: false, values: vals },
            };
            let ghost prev_merged = merged@;
            proof {
                assert(str_models(ids@).take(str_models(ids@).len() as int) =~= str_models(ids@));
                assert(record@.tag_data.values =~= merged_values(fm, fm[e as int]));
                assert(record@ == merged_record(fm, fm[e as int]));
            }
            merged.push(record);
            proof {
                broadcast use vstd::seq::Seq::lemma_push_map_commute;

                assert(firsts(fm.take(e + 1)) == firsts(fm.take(e as int)).push(fm[e as int]));
                assert(merged@.map_values(|t: MinecraftTagData| t@) =~= firsts(fm.take(e + 1)).map_values(
                    |a: TagDataModel| merged_record(fm, a),
                ));
                assert forall|kk: int| 0 <= kk < merged@.len() implies key_eq(
                    #[trigger] merged@[kk]@,
                    firsts(fm.take(e + 1))[kk],
                ) by {
                    if kk < prev_merged.len() {
                        assert(merged@[kk] == prev_merged[kk]);
                        assert(firsts(fm.take(e + 1))[kk] == firsts(fm.take(e as int))[kk]);
                    }
                }
            }
        } else {
            proof {
                assert(firsts(fm.take(e + 1)) == firsts(fm.take(e as int)));
            }
        }
        e = e + 1;
    }
    proof {
        assert(fm.take(fm.len() as int) =~= fm);
    }
    merged
}

} // verus!
