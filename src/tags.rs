//! Tag aggregation: which items carry each tag, and the order of the tag
//! index.

use crate::resource::{items_view, ItemView, ResourceMetadata};
use crate::text::{lemma_lex_total, lemma_lex_transitive, lex_lt, str_lt};
use vstd::prelude::*;

verus! {

/// One tag and the positions, in collection order, of the items that carry it.
#[derive(Clone, Debug)]
pub struct TagBucket {
    pub tag: String,
    pub items: Vec<usize>,
}

/// `s` is strictly increasing.
pub open spec fn increasing(s: Seq<usize>) -> bool {
    forall|a: int, b: int| 0 <= a < b < s.len() ==> #[trigger] s[a] < #[trigger] s[b]
}

/// `bucket` holds, in order, exactly the positions of the items of `c` that
/// carry its tag.
pub open spec fn holds_carriers<T>(bucket: TagBucket, c: Seq<ItemView<T>>) -> bool {
    &&& increasing(bucket.items@)
    &&& forall|k: int| 0 <= k < bucket.items@.len() ==> #[trigger] bucket.items@[k] < c.len()
    &&& forall|j: int| 0 <= j < c.len() ==> (bucket.items@.contains(j as usize) <==> #[trigger] c[j].1.tags.contains(bucket.tag@))
}

/// No two buckets share a tag.
pub open spec fn distinct_tags(buckets: Seq<TagBucket>) -> bool {
    forall|a: int, b: int| 0 <= a < b < buckets.len() ==> #[trigger] buckets[a].tag@ != #[trigger] buckets[b].tag@
}

/// `buckets` is the tag aggregation of `c`: one bucket per tag that some
/// item carries, each holding exactly that tag's carriers in order.
pub open spec fn is_tag_aggregation<T>(buckets: Seq<TagBucket>, c: Seq<ItemView<T>>) -> bool {
    &&& distinct_tags(buckets)
    &&& forall|b: int| 0 <= b < buckets.len() ==> #[trigger] holds_carriers(buckets[b], c)
    &&& forall|b: int| 0 <= b < buckets.len() ==> (#[trigger] buckets[b]).items@.len() > 0
    &&& forall|j: int, t: Seq<char>| 0 <= j < c.len() && #[trigger] c[j].1.tags.contains(t)
        ==> exists|b: int| 0 <= b < buckets.len() && #[trigger] buckets[b].tag@ == t
}

/// The tags of item `j` that the aggregation has seen after visiting items
/// before `i` fully and the first `t` tags of item `i`.
pub open spec fn seen_tags<T>(c: Seq<ItemView<T>>, i: int, t: int, j: int) -> Seq<Seq<char>> {
    if j < i {
        c[j].1.tags
    } else if j == i {
        c[j].1.tags.take(t)
    } else {
        Seq::empty()
    }
}

/// Partial aggregation: the buckets after visiting items before `i` and the
/// first `t` tags of item `i`.
pub open spec fn aggregation_upto<T>(buckets: Seq<TagBucket>, c: Seq<ItemView<T>>, i: int, t: int) -> bool {
    &&& distinct_tags(buckets)
    &&& forall|b: int| 0 <= b < buckets.len() ==> increasing(#[trigger] buckets[b].items@)
    &&& forall|b: int| 0 <= b < buckets.len() ==> (#[trigger] buckets[b]).items@.len() > 0
    &&& forall|b: int, k: int| 0 <= b < buckets.len() && 0 <= k < buckets[b].items@.len() ==> #[trigger] buckets[b].items@[k] <= i
    &&& forall|b: int, k: int| 0 <= b < buckets.len() && 0 <= k < buckets[b].items@.len() ==> #[trigger] buckets[b].items@[k] < c.len()
    &&& forall|b: int, j: int| 0 <= b < buckets.len() && 0 <= j < c.len() ==>
        (#[trigger] buckets[b].items@.contains(j as usize) <==> seen_tags(c, i, t, j).contains(buckets[b].tag@))
    &&& forall|j: int, u: Seq<char>| 0 <= j < c.len() && #[trigger] seen_tags(c, i, t, j).contains(u)
        ==> exists|b: int| 0 <= b < buckets.len() && #[trigger] buckets[b].tag@ == u
}

proof fn lemma_push_contains<A>(s: Seq<A>, x: A, y: A)
    ensures
        s.push(x).contains(y) <==> (s.contains(y) || x == y),
{
    if s.push(x).contains(y) {
        let k = choose|k: int| 0 <= k < s.push(x).len() && s.push(x)[k] == y;
        if k < s.len() {
            assert(s[k] == y);
        }
    }
    if s.contains(y) {
        let k = choose|k: int| 0 <= k < s.len() && s[k] == y;
        assert(s.push(x)[k] == y);
    }
    if x == y {
        assert(s.push(x)[s.len() as int] == y);
    }
}

proof fn lemma_seen_step<T>(c: Seq<ItemView<T>>, i: int, t: int, u: Seq<char>)
    requires
        0 <= i < c.len(),
        0 <= t < c[i].1.tags.len(),
    ensures
        forall|j: int| 0 <= j < c.len() && j != i ==> #[trigger] seen_tags(c, i, t + 1, j) == seen_tags(c, i, t, j),
        seen_tags(c, i, t + 1, i) == seen_tags(c, i, t, i).push(c[i].1.tags[t]),
        seen_tags(c, i, t + 1, i).contains(u) <==> (seen_tags(c, i, t, i).contains(u) || c[i].1.tags[t] == u),
{
    assert(c[i].1.tags.take(t + 1) == c[i].1.tags.take(t).push(c[i].1.tags[t]));
    lemma_push_contains(seen_tags(c, i, t, i), c[i].1.tags[t], u);
}

proof fn lemma_next_item<T>(buckets: Seq<TagBucket>, c: Seq<ItemView<T>>, i: int)
    requires
        0 <= i < c.len(),
        aggregation_upto(buckets, c, i, c[i].1.tags.len() as int),
    ensures
        aggregation_upto(buckets, c, i + 1, 0),
{
    let n = c[i].1.tags.len() as int;
    assert(c[i].1.tags.take(n) == c[i].1.tags);
    assert forall|j: int| 0 <= j < c.len() implies #[trigger] seen_tags(c, i + 1, 0, j) == seen_tags(c, i, n, j) by {
        if j == i + 1 {
            assert(c[j].1.tags.take(0) == Seq::<Seq<char>>::empty());
        }
    }
    assert forall|b: int, j: int| 0 <= b < buckets.len() && 0 <= j < c.len() implies
        (#[trigger] buckets[b].items@.contains(j as usize) <==> seen_tags(c, i + 1, 0, j).contains(buckets[b].tag@)) by {
        assert(seen_tags(c, i + 1, 0, j) == seen_tags(c, i, n, j));
    }
    assert forall|j: int, u: Seq<char>| 0 <= j < c.len() && #[trigger] seen_tags(c, i + 1, 0, j).contains(u)
        implies exists|b: int| 0 <= b < buckets.len() && #[trigger] buckets[b].tag@ == u by {
        assert(seen_tags(c, i + 1, 0, j) == seen_tags(c, i, n, j));
    }
}

/// Finds the bucket of `tag`, if there is one.
fn find_bucket(buckets: &Vec<TagBucket>, tag: &String) -> (r: usize)
    ensures
        r <= buckets@.len(),
        r < buckets@.len() ==> buckets@[r as int].tag@ == tag@,
        r == buckets@.len() ==> forall|b: int| 0 <= b < buckets@.len() ==> #[trigger] buckets@[b].tag@ != tag@,
{
    let mut b: usize = 0;
    while b < buckets.len()
        invariant
            b <= buckets@.len(),
            forall|k: int| 0 <= k < b ==> #[trigger] buckets@[k].tag@ != tag@,
        decreases buckets@.len() - b,
    {
        if buckets[b].tag == *tag {
            return b;
        }
        b = b + 1;
    }
    b
}

/// Groups the items of a collection by tag: one bucket per tag that some item
/// carries, holding the positions of its carriers in collection order. An
/// item that lists a tag twice is in its bucket once.
pub fn collect_tags<T>(items: &Vec<(String, ResourceMetadata<T>)>) -> (r: Vec<TagBucket>)
    ensures
        is_tag_aggregation(r@, items_view(items@)),
{
    let ghost c = items_view(items@);
    let n = items.len();
    assert(c.len() == n);
    let mut buckets: Vec<TagBucket> = Vec::new();
    let mut i: usize = 0;
    while i < items.len()
        invariant
            c == items_view(items@),
            c.len() <= usize::MAX,
            i <= items@.len(),
            aggregation_upto(buckets@, c, i as int, 0),
        decreases items@.len() - i,
    {
        let tags = &items[i].1.tags;
        let ghost tv = c[i as int].1.tags;
        assert(tv == crate::resource::texts(tags@));
        proof {
            assert forall|j: int| 0 <= j < c.len() implies seen_tags(c, i as int, 0, j) == (if j < i { c[j].1.tags } else { Seq::<Seq<char>>::empty() }) by {
                if j == i {
                    assert(c[j].1.tags.take(0) == Seq::<Seq<char>>::empty());
                }
            }
        }
        let mut t: usize = 0;
        while t < tags.len()
            invariant
                c == items_view(items@),
                c.len() <= usize::MAX,
                i < items@.len(),
                tags@ == items@[i as int].1.tags@,
                tv == c[i as int].1.tags,
                tv.len() == tags@.len(),
                forall|k: int| 0 <= k < tv.len() ==> #[trigger] tv[k] == tags@[k]@,
                t <= tags@.len(),
                aggregation_upto(buckets@, c, i as int, t as int),
            decreases tags@.len() - t,
        {
            let tag = &tags[t];
            let ghost old_buckets = buckets@;
            proof {
                assert(tv.take(t + 1) == tv.take(t as int).push(tag@));
            }
            let b = find_bucket(&buckets, tag);
            if b == buckets.len() {
                let mut members: Vec<usize> = Vec::new();
                members.push(i);
                buckets.push(TagBucket { tag: tag.clone(), items: members });
                proof {
                    assert(buckets@[old_buckets.len() as int].items@ == seq![i]);
                    assert forall|bb: int, j: int| 0 <= bb < buckets@.len() && 0 <= j < c.len() implies
                        (#[trigger] buckets@[bb].items@.contains(j as usize) <==> seen_tags(c, i as int, t + 1, j).contains(buckets@[bb].tag@)) by {
                        lemma_seen_step(c, i as int, t as int, buckets@[bb].tag@);
                        if bb < old_buckets.len() {
                            assert(buckets@[bb] == old_buckets[bb]);
                        } else {
                            if j == i {
                                assert(buckets@[bb].items@[0] == i);
                            } else {
                                assert(!seen_tags(c, i as int, t as int, j).contains(tag@));
                                if buckets@[bb].items@.contains(j as usize) {
                                    let k = choose|k: int| 0 <= k < buckets@[bb].items@.len() && buckets@[bb].items@[k] == j as usize;
                                    assert(k == 0);
                                }
                            }
                        }
                    }
                    assert forall|j: int, u: Seq<char>| 0 <= j < c.len() && #[trigger] seen_tags(c, i as int, t + 1, j).contains(u)
                        implies exists|bb: int| 0 <= bb < buckets@.len() && #[trigger] buckets@[bb].tag@ == u by {
                        lemma_seen_step(c, i as int, t as int, u);
                        if u == tag@ {
                            assert(buckets@[old_buckets.len() as int].tag@ == u);
                        } else {
                            assert(seen_tags(c, i as int, t as int, j).contains(u));
                            let bb = choose|bb: int| 0 <= bb < old_buckets.len() && #[trigger] old_buckets[bb].tag@ == u;
                            assert(buckets@[bb] == old_buckets[bb]);
                        }
                    }
                    assert(aggregation_upto(buckets@, c, i as int, t + 1));
                }
            } else {
                let last = buckets[b].items.len() - 1;
                let ghost ob = old_buckets[b as int];
                proof {
                    lemma_seen_step(c, i as int, t as int, tag@);
                }
                if buckets[b].items[last] != i {
                    let mut bucket = buckets.remove(b);
                    bucket.items.push(i);
                    buckets.insert(b, bucket);
                    proof {
                        assert(buckets@ == old_buckets.update(b as int, buckets@[b as int]));
                        let nb = buckets@[b as int];
                        assert(nb.items@ == ob.items@.push(i));
                        assert(nb.tag@ == ob.tag@);
                        assert(ob.items@[last as int] < i);
                        assert forall|x: int, y: int| 0 <= x < y < nb.items@.len() implies #[trigger] nb.items@[x] < #[trigger] nb.items@[y] by {
                            if y == last + 1 {
                                if x < last {
                                    assert(ob.items@[x] < ob.items@[last as int]);
                                }
                            } else {
                                assert(ob.items@[x] < ob.items@[y]);
                            }
                        }
                        assert forall|bb: int, j: int| 0 <= bb < buckets@.len() && 0 <= j < c.len() implies
                            (#[trigger] buckets@[bb].items@.contains(j as usize) <==> seen_tags(c, i as int, t + 1, j).contains(buckets@[bb].tag@)) by {
                            lemma_seen_step(c, i as int, t as int, buckets@[bb].tag@);
                            if bb == b {
                                assert(nb.items@[last + 1] == i);
                                if j == i {
                                    assert(nb.items@[last + 1] == i);
                                } else {
                                    if nb.items@.contains(j as usize) {
                                        let k = choose|k: int| 0 <= k < nb.items@.len() && nb.items@[k] == j as usize;
                                        assert(k != last + 1);
                                        assert(k < ob.items@.len());
                                        assert(nb.items@[k] == ob.items@[k]);
                                        assert(ob.items@[k] == j);
                                    }
                                    if ob.items@.contains(j as usize) {
                                        let k = choose|k: int| 0 <= k < ob.items@.len() && ob.items@[k] == j as usize;
                                        assert(nb.items@[k] == j);
                                    }
                                }
                            } else {
                                assert(buckets@[bb] == old_buckets[bb]);
                                if j == i {
                                    assert(old_buckets[bb].tag@ != tag@);
                                }
                            }
                        }
                        assert forall|j: int, u: Seq<char>| 0 <= j < c.len() && #[trigger] seen_tags(c, i as int, t + 1, j).contains(u)
                            implies exists|bb: int| 0 <= bb < buckets@.len() && #[trigger] buckets@[bb].tag@ == u by {
                            lemma_seen_step(c, i as int, t as int, u);
                            if u == tag@ {
                                assert(buckets@[b as int].tag@ == u);
                            } else {
                                assert(seen_tags(c, i as int, t as int, j).contains(u));
                                let bb = choose|bb: int| 0 <= bb < old_buckets.len() && #[trigger] old_buckets[bb].tag@ == u;
                                assert(buckets@[bb].tag@ == u);
                            }
                        }
                        assert forall|bb: int, k: int| 0 <= bb < buckets@.len() && 0 <= k < buckets@[bb].items@.len() implies #[trigger] buckets@[bb].items@[k] <= i by {
                            if bb != b {
                                assert(buckets@[bb] == old_buckets[bb]);
                            } else if k < ob.items@.len() {
                                assert(nb.items@[k] == ob.items@[k]);
                            }
                        }
                        assert forall|bb: int, k: int| 0 <= bb < buckets@.len() && 0 <= k < buckets@[bb].items@.len() implies #[trigger] buckets@[bb].items@[k] < c.len() by {
                            if bb != b {
                                assert(buckets@[bb] == old_buckets[bb]);
                            } else if k < ob.items@.len() {
                                assert(nb.items@[k] == ob.items@[k]);
                            }
                        }
                        assert forall|bb: int| 0 <= bb < buckets@.len() implies increasing(#[trigger] buckets@[bb].items@) by {
                            if bb != b {
                                assert(buckets@[bb] == old_buckets[bb]);
                            }
                        }
                        assert forall|x: int, y: int| 0 <= x < y < buckets@.len() implies #[trigger] buckets@[x].tag@ != #[trigger] buckets@[y].tag@ by {
                            assert(buckets@[x].tag@ == old_buckets[x].tag@);
                            assert(buckets@[y].tag@ == old_buckets[y].tag@);
                        }
                        assert(aggregation_upto(buckets@, c, i as int, t + 1));
                    }
                } else {
                    proof {
                        assert(ob.items@.contains(i));
                        assert forall|bb: int, j: int| 0 <= bb < buckets@.len() && 0 <= j < c.len() implies
                            (#[trigger] buckets@[bb].items@.contains(j as usize) <==> seen_tags(c, i as int, t + 1, j).contains(buckets@[bb].tag@)) by {
                            lemma_seen_step(c, i as int, t as int, buckets@[bb].tag@);
                            if bb != b && j == i {
                                assert(old_buckets[bb].tag@ != tag@);
                            }
                        }
                        assert forall|j: int, u: Seq<char>| 0 <= j < c.len() && #[trigger] seen_tags(c, i as int, t + 1, j).contains(u)
                            implies exists|bb: int| 0 <= bb < buckets@.len() && #[trigger] buckets@[bb].tag@ == u by {
                            lemma_seen_step(c, i as int, t as int, u);
                            if u == tag@ {
                                assert(buckets@[b as int].tag@ == u);
                            } else {
                                assert(seen_tags(c, i as int, t as int, j).contains(u));
                            }
                        }
                    }
                }
            }
            t = t + 1;
        }
        proof {
            lemma_next_item(buckets@, c, i as int);
        }
        i = i + 1;
    }
    proof {
        assert forall|j: int| 0 <= j < c.len() implies seen_tags(c, i as int, 0, j) == c[j].1.tags by {}
        assert forall|b: int| 0 <= b < buckets@.len() implies #[trigger] holds_carriers(buckets@[b], c) by {
            assert forall|j: int| 0 <= j < c.len() implies (buckets@[b].items@.contains(j as usize) <==> #[trigger] c[j].1.tags.contains(buckets@[b].tag@)) by {
                assert(seen_tags(c, i as int, 0, j) == c[j].1.tags);
            }
        }
        assert forall|j: int, t: Seq<char>| 0 <= j < c.len() && #[trigger] c[j].1.tags.contains(t)
            implies exists|b: int| 0 <= b < buckets@.len() && #[trigger] buckets@[b].tag@ == t by {
            assert(seen_tags(c, i as int, 0, j) == c[j].1.tags);
        }
    }
    buckets
}


/// Every item sits in one bucket per distinct tag it carries and in no other:
/// for each tag of the item exactly one bucket has that tag, and it holds the
/// item exactly once; a bucket that holds the item has one of its tags.
pub proof fn law_one_bucket_per_tag<T>(buckets: Seq<TagBucket>, c: Seq<ItemView<T>>)
    requires
        is_tag_aggregation(buckets, c),
    ensures
        forall|j: int, u: Seq<char>| 0 <= j < c.len() && #[trigger] c[j].1.tags.contains(u) ==> exists|b: int|
            0 <= b < buckets.len() && #[trigger] buckets[b].tag@ == u && buckets[b].items@.contains(j as usize),
        forall|b1: int, b2: int| 0 <= b1 < buckets.len() && 0 <= b2 < buckets.len()
            && #[trigger] buckets[b1].tag@ == #[trigger] buckets[b2].tag@ ==> b1 == b2,
        forall|b: int, j: int| 0 <= b < buckets.len() && 0 <= j < c.len() && #[trigger] buckets[b].items@.contains(j as usize)
            ==> c[j].1.tags.contains(buckets[b].tag@),
        forall|b: int, x: int, y: int| 0 <= b < buckets.len() && 0 <= x < y < buckets[b].items@.len()
            ==> #[trigger] buckets[b].items@[x] != #[trigger] buckets[b].items@[y],
{
    assert forall|j: int, u: Seq<char>| 0 <= j < c.len() && #[trigger] c[j].1.tags.contains(u) implies exists|b: int|
        0 <= b < buckets.len() && #[trigger] buckets[b].tag@ == u && buckets[b].items@.contains(j as usize) by {
        let b = choose|b: int| 0 <= b < buckets.len() && #[trigger] buckets[b].tag@ == u;
        assert(holds_carriers(buckets[b], c));
    }
    assert forall|b1: int, b2: int| 0 <= b1 < buckets.len() && 0 <= b2 < buckets.len()
        && #[trigger] buckets[b1].tag@ == #[trigger] buckets[b2].tag@ implies b1 == b2 by {
        if b1 < b2 {
            assert(buckets[b1].tag@ != buckets[b2].tag@);
        } else if b2 < b1 {
            assert(buckets[b2].tag@ != buckets[b1].tag@);
        }
    }
    assert forall|b: int, j: int| 0 <= b < buckets.len() && 0 <= j < c.len() && #[trigger] buckets[b].items@.contains(j as usize)
        implies c[j].1.tags.contains(buckets[b].tag@) by {
        assert(holds_carriers(buckets[b], c));
    }
    assert forall|b: int, x: int, y: int| 0 <= b < buckets.len() && 0 <= x < y < buckets[b].items@.len()
        implies #[trigger] buckets[b].items@[x] != #[trigger] buckets[b].items@[y] by {
        assert(holds_carriers(buckets[b], c));
    }
}

/// Tag index order: `x` comes before `y` when more items carry it, or as
/// many do and its tag sorts first.
pub open spec fn ranks_before(x: TagBucket, y: TagBucket) -> bool {
    x.items@.len() > y.items@.len() || (x.items@.len() == y.items@.len() && lex_lt(x.tag@, y.tag@))
}

proof fn lemma_ranks_total(x: TagBucket, y: TagBucket)
    requires
        x.tag@ != y.tag@,
    ensures
        ranks_before(x, y) != ranks_before(y, x),
{
    lemma_lex_total(x.tag@, y.tag@);
}

proof fn lemma_ranks_transitive(x: TagBucket, y: TagBucket, z: TagBucket)
    requires
        ranks_before(x, y),
        ranks_before(y, z),
    ensures
        ranks_before(x, z),
{
    if x.items@.len() == y.items@.len() && y.items@.len() == z.items@.len() {
        lemma_lex_transitive(x.tag@, y.tag@, z.tag@);
    }
}

fn ranks_before_exec(x: &TagBucket, y: &TagBucket) -> (r: bool)
    ensures
        r == ranks_before(*x, *y),
{
    x.items.len() > y.items.len() || (x.items.len() == y.items.len() && str_lt(x.tag.as_str(), y.tag.as_str()))
}

/// The order of the tag index: positions of `buckets`, most-used tag first,
/// tags used equally often in lexicographic order. Each bucket appears once.
pub fn tag_index_order(buckets: &Vec<TagBucket>) -> (r: Vec<usize>)
    requires
        distinct_tags(buckets@),
    ensures
        r@.len() == buckets@.len(),
        forall|k: int| 0 <= k < r@.len() ==> #[trigger] r@[k] < buckets@.len(),
        forall|a: int, b: int| 0 <= a < b < r@.len() ==> #[trigger] r@[a] != #[trigger] r@[b],
        forall|a: int, b: int| 0 <= a < b < r@.len() ==> ranks_before(buckets@[#[trigger] r@[a] as int], buckets@[#[trigger] r@[b] as int]),
        forall|b: usize| b < buckets@.len() ==> #[trigger] r@.contains(b),
{
    let mut order: Vec<usize> = Vec::new();
    let mut k: usize = 0;
    while k < buckets.len()
        invariant
            distinct_tags(buckets@),
            k <= buckets@.len(),
            order@.len() == k,
            forall|x: int| 0 <= x < order@.len() ==> #[trigger] order@[x] < k,
            forall|a: int, b: int| 0 <= a < b < order@.len() ==> #[trigger] order@[a] != #[trigger] order@[b],
            forall|a: int, b: int| 0 <= a < b < order@.len() ==> ranks_before(buckets@[#[trigger] order@[a] as int], buckets@[#[trigger] order@[b] as int]),
            forall|b: usize| b < k ==> #[trigger] order@.contains(b),
        decreases buckets@.len() - k,
    {
        let mut p: usize = 0;
        while p < order.len() && ranks_before_exec(&buckets[order[p]], &buckets[k])
            invariant
                p <= order@.len(),
                k < buckets@.len(),
                forall|x: int| 0 <= x < order@.len() ==> #[trigger] order@[x] < k,
                forall|x: int| 0 <= x < p ==> ranks_before(buckets@[#[trigger] order@[x] as int], buckets@[k as int]),
            decreases order@.len() - p,
        {
            p = p + 1;
        }
        let ghost before = order@;
        order.insert(p, k);
        proof {
            assert(order@ == before.insert(p as int, k));
            assert forall|b: usize| b < k + 1 implies #[trigger] order@.contains(b) by {
                if b == k {
                    assert(order@[p as int] == k);
                } else {
                    assert(before.contains(b));
                    let m = choose|m: int| 0 <= m < before.len() && before[m] == b;
                    if m < p {
                        assert(order@[m] == b);
                    } else {
                        assert(order@[m + 1] == b);
                    }
                }
            }
            assert forall|x: int| 0 <= x < order@.len() implies #[trigger] order@[x] < k + 1 by {
                if x > p {
                    assert(order@[x] == before[x - 1]);
                }
            }
            if p < before.len() {
                let q = before[p as int];
                assert(buckets@[q as int].tag@ != buckets@[k as int].tag@) by {
                    if q < k {
                        assert(buckets@[q as int].tag@ != buckets@[k as int].tag@);
                    }
                }
                lemma_ranks_total(buckets@[q as int], buckets@[k as int]);
            }
            assert forall|a: int, b: int| 0 <= a < b < order@.len() implies #[trigger] order@[a] != #[trigger] order@[b] by {
                if a < p && b > p {
                    assert(order@[b] == before[b - 1]);
                } else if a > p {
                    assert(order@[a] == before[a - 1]);
                    assert(order@[b] == before[b - 1]);
                } else if a == p {
                    assert(order@[b] == before[b - 1]);
                }
            }
            assert forall|a: int, b: int| 0 <= a < b < order@.len() implies ranks_before(buckets@[#[trigger] order@[a] as int], buckets@[#[trigger] order@[b] as int]) by {
                let kb = buckets@[k as int];
                if b < p {
                } else if b == p {
                    assert(order@[a] == before[a]);
                } else if a == p {
                    assert(order@[b] == before[b - 1]);
                    let q = before[p as int];
                    if b - 1 > p {
                        lemma_ranks_transitive(kb, buckets@[q as int], buckets@[before[b - 1] as int]);
                    }
                } else if a < p {
                    assert(order@[b] == before[b - 1]);
                    assert(order@[a] == before[a]);
                    if a < b - 1 {
                    }
                } else {
                    assert(order@[a] == before[a - 1]);
                    assert(order@[b] == before[b - 1]);
                }
            }
        }
        k = k + 1;
    }
    order
}

} // verus!
