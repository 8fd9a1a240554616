//! The declared relations of a document, indexed by the path of the node
//! that owns each of them.

use vstd::prelude::*;
use vstd::string::*;

use crate::data::model::{relation_to, uuid_parse, Relation, RelationView};
use crate::data::source_model::{Relation as SourceRelation, RelationView as SourceRelationView};

verus! {

/// The relations held under `url`, in the order they were added; none where
/// `url` is no key.
pub open spec fn relations_at(
    index: Map<Seq<char>, Seq<RelationView>>,
    url: Seq<char>,
) -> Seq<RelationView> {
    if index.contains_key(url) {
        index[url]
    } else {
        Seq::empty()
    }
}

/// `index` with `relation` added behind those already held under `url`.
pub open spec fn with_relation(
    index: Map<Seq<char>, Seq<RelationView>>,
    url: Seq<char>,
    relation: RelationView,
) -> Map<Seq<char>, Seq<RelationView>> {
    index.insert(url, relations_at(index, url).push(relation))
}

/// The map that a list of entries stands for. Where a key occurs twice the
/// later entry counts.
pub open spec fn map_of(entries: Seq<(Seq<char>, Seq<RelationView>)>) -> Map<
    Seq<char>,
    Seq<RelationView>,
>
    decreases entries.len(),
{
    if entries.len() == 0 {
        Map::empty()
    } else {
        map_of(entries.drop_last()).insert(entries.last().0, entries.last().1)
    }
}

/// No key occurs twice.
pub open spec fn distinct_keys(entries: Seq<(Seq<char>, Seq<RelationView>)>) -> bool {
    forall|i: int, j: int|
        0 <= i < j < entries.len() ==> (#[trigger] entries[i]).0 != (#[trigger] entries[j]).0
}

proof fn lemma_map_of(entries: Seq<(Seq<char>, Seq<RelationView>)>)
    requires
        distinct_keys(entries),
    ensures
        forall|i: int|
            0 <= i < entries.len() ==> map_of(entries).contains_key((#[trigger] entries[i]).0)
                && map_of(entries)[entries[i].0] == entries[i].1,
        forall|k: Seq<char>| #[trigger]
            map_of(entries).contains_key(k) ==> exists|i: int|
                0 <= i < entries.len() && (#[trigger] entries[i]).0 == k,
    decreases entries.len(),
{
    if entries.len() > 0 {
        let front = entries.drop_last();
        lemma_map_of(front);
        assert forall|i: int| 0 <= i < entries.len() implies map_of(entries).contains_key(
            (#[trigger] entries[i]).0,
        ) && map_of(entries)[entries[i].0] == entries[i].1 by {
            if i < entries.len() - 1 {
                assert(front[i] == entries[i]);
                assert(entries[i].0 != entries[entries.len() - 1].0);
            }
        }
        assert forall|k: Seq<char>| #[trigger] map_of(entries).contains_key(k) implies exists|i: int|
            0 <= i < entries.len() && (#[trigger] entries[i]).0 == k by {
            if k == entries.last().0 {
                assert(entries[entries.len() - 1].0 == k);
            } else {
                assert(map_of(front).contains_key(k));
                let i = choose|i: int| 0 <= i < front.len() && (#[trigger] front[i]).0 == k;
                assert(entries[i] == front[i]);
            }
        }
    }
}

/// The relations of a document by the path of their owner. It stands for a
/// map from paths to lists of relations; each list keeps the order in which
/// its relations were added.
pub struct RelationMap {
    entries: Vec<(String, Vec<Relation>)>,
}

impl View for RelationMap {
    type V = Map<Seq<char>, Seq<RelationView>>;

    closed spec fn view(&self) -> Map<Seq<char>, Seq<RelationView>> {
        map_of(self.entries.deep_view())
    }
}

impl RelationMap {
    #[verifier::type_invariant]
    spec fn well_formed(&self) -> bool {
        distinct_keys(self.entries.deep_view())
    }

    /// The index without any relation.
    pub fn new() -> (index: Self)
        ensures
            index@ == Map::<Seq<char>, Seq<RelationView>>::empty(),
    {
        let index = RelationMap { entries: Vec::new() };
        assert(index.entries.deep_view() =~= Seq::empty());
        index
    }

    fn position(&self, url: &String) -> (at: Option<usize>)
        ensures
            match at {
                Some(i) => i < self.entries.len() && self.entries.deep_view()[i as int].0 == url@,
                None => forall|i: int|
                    0 <= i < self.entries.len() ==> (#[trigger] self.entries.deep_view()[i]).0
                        != url@,
            },
    {
        let mut i: usize = 0;
        while i < self.entries.len()
            invariant
                i <= self.entries.len(),
                forall|j: int| 0 <= j < i ==> (#[trigger] self.entries.deep_view()[j]).0 != url@,
            decreases self.entries.len() - i,
        {
            if self.entries[i].0 == *url {
                return Some(i);
            }
            i += 1;
        }
        None
    }

    /// The relations held under `url`.
    pub fn get(&self, url: &String) -> (found: Option<&Vec<Relation>>)
        ensures
            match found {
                Some(relations) => self@.contains_key(url@) && relations.deep_view() == self@[url@],
                None => !self@.contains_key(url@),
            },
    {
        proof {
            use_type_invariant(self);
            lemma_map_of(self.entries.deep_view());
        }
        match self.position(url) {
            Some(i) => Some(&self.entries[i].1),
            None => None,
        }
    }

    /// Adds `relation` behind the relations already held under `url`.
    pub fn push(&mut self, url: String, relation: Relation)
        ensures
            final(self)@ == with_relation(old(self)@, url@, relation@),
    {
        proof {
            use_type_invariant(&*self);
            lemma_map_of(self.entries.deep_view());
        }
        let at = self.position(&url);
        let ghost before = self.entries.deep_view();
        let mut entries: Vec<(String, Vec<Relation>)> = Vec::new();
        assert(entries.deep_view() =~= Seq::empty());
        core::mem::swap(&mut self.entries, &mut entries);
        match at {
            Some(i) => {
                entries[i].1.push(relation);
                assert(entries.deep_view() =~= before.update(
                    i as int,
                    (url@, before[i as int].1.push(relation@)),
                )) by {
                    assert forall|j: int| 0 <= j < entries.len() implies entries.deep_view()[j]
                        == before.update(i as int, (url@, before[i as int].1.push(relation@)))[j] by {
                        if j == i {
                            assert(entries@[j].1.deep_view() =~= before[j].1.push(relation@));
                        } else {
                            assert(entries@[j].deep_view() == before[j]);
                        }
                    }
                }
            },
            None => {
                let mut list: Vec<Relation> = Vec::new();
                list.push(relation);
                assert(list.deep_view() =~= seq![relation@]);
                entries.push((url, list));
                assert(entries.deep_view() =~= before.push((url@, seq![relation@])));
            },
        }
        proof {
            lemma_map_of(entries.deep_view());
        }
        core::mem::swap(&mut self.entries, &mut entries);
        proof {
            let after = self.entries.deep_view();
            let target = with_relation(map_of(before), url@, relation@);
            let at_url: int = match at {
                Some(i) => i as int,
                None => before.len() as int,
            };
            assert(after[at_url].0 == url@);
            assert(after[at_url].1 == relations_at(map_of(before), url@).push(relation@)) by {
                if at is Some {
                    assert(before[at_url].0 == url@);
                }
            }
            assert forall|k: Seq<char>| map_of(after).contains_key(k) == target.contains_key(
                k,
            ) by {
                if k != url@ {
                    if map_of(after).contains_key(k) {
                        let j = choose|j: int| 0 <= j < after.len() && (#[trigger] after[j]).0 == k;
                        assert(before[j].0 == k);
                    }
                    if map_of(before).contains_key(k) {
                        let j = choose|j: int|
                            0 <= j < before.len() && (#[trigger] before[j]).0 == k;
                        assert(after[j].0 == k);
                    }
                }
            }
            assert forall|k: Seq<char>| target.contains_key(k) implies map_of(after)[k]
                == target[k] by {
                if k != url@ {
                    let j = choose|j: int| 0 <= j < before.len() && (#[trigger] before[j]).0 == k;
                    assert(after[j] == before[j]);
                }
            }
            assert(map_of(after) =~= target);
        }
    }
}

/// The fragments of a path joined by `/`, with no `/` before the first or
/// after the last.
pub open spec fn join_path(fragments: Seq<Seq<char>>) -> Seq<char>
    decreases fragments.len(),
{
    if fragments.len() == 0 {
        Seq::empty()
    } else if fragments.len() == 1 {
        fragments[0]
    } else {
        join_path(fragments.drop_last()) + seq!['/'] + fragments.last()
    }
}

/// Joins the fragments of a path by `/`.
pub fn get_path(path: &[String]) -> (joined: String)
    requires
        path@.len() > 0,
    ensures
        joined@ == join_path(path.deep_view()),
{
    proof {
        reveal_strlit("/");
    }
    let ghost fragments = path.deep_view();
    let mut joined = path[0].clone();
    assert(fragments.subrange(0, 1) =~= seq![fragments[0]]);
    let mut i: usize = 1;
    while i < path.len()
        invariant
            1 <= i <= path.len(),
            fragments == path.deep_view(),
            "/"@ == seq!['/'],
            joined@ == join_path(fragments.subrange(0, i as int)),
        decreases path.len() - i,
    {
        assert(fragments.subrange(0, i + 1).drop_last() =~= fragments.subrange(0, i as int));
        joined = joined.concat("/").concat(path[i].as_str());
        i += 1;
    }
    assert(fragments.subrange(0, i as int) =~= fragments);
    joined
}

/// Each relation names both of its ends by at least one fragment.
pub open spec fn ends_are_given(relations: Seq<SourceRelationView>) -> bool {
    forall|i: int|
        0 <= i < relations.len() ==> (#[trigger] relations[i]).source.len() > 0
            && relations[i].target.len() > 0
}

/// Tells whether each relation names both of its ends.
pub fn ends_given(relations: &Vec<SourceRelation>) -> (given: bool)
    ensures
        given == ends_are_given(relations.deep_view()),
{
    let mut i: usize = 0;
    while i < relations.len()
        invariant
            i <= relations.len(),
            forall|j: int|
                0 <= j < i ==> (#[trigger] relations.deep_view()[j]).source.len() > 0
                    && relations.deep_view()[j].target.len() > 0,
        decreases relations.len() - i,
    {
        assert(relations@[i as int]@ == relations.deep_view()[i as int]);
        if relations[i].source.len() == 0 || relations[i].target.len() == 0 {
            return false;
        }
        i += 1;
    }
    true
}

/// The index of the declared relations. Each declaration stands twice in it:
/// outbound under the path of its source, pointing at its target, and inbound
/// under the path of its target, pointing at its source.
pub open spec fn declared_relations(
    ingestion_id: Seq<char>,
    relations: Seq<SourceRelationView>,
) -> Map<Seq<char>, Seq<RelationView>>
    decreases relations.len(),
{
    if relations.len() == 0 {
        Map::empty()
    } else {
        let r = relations.last();
        let source = join_path(r.source);
        let target = join_path(r.target);
        with_relation(
            with_relation(
                declared_relations(ingestion_id, relations.drop_last()),
                source,
                relation_to(ingestion_id, r.type_field, target, true),
            ),
            target,
            relation_to(ingestion_id, r.type_field, source, false),
        )
    }
}

/// The far end of every relation of the index is the text of an identity.
pub open spec fn far_ends_are_identities(index: Map<Seq<char>, Seq<RelationView>>) -> bool {
    forall|url: Seq<char>, j: int|
        index.contains_key(url) && 0 <= j < index[url].len() ==> uuid_parse(
            (#[trigger] index[url][j]).relates_to,
        ) is Some
}

proof fn lemma_identities_stay(
    index: Map<Seq<char>, Seq<RelationView>>,
    url: Seq<char>,
    relation: RelationView,
)
    requires
        far_ends_are_identities(index),
        uuid_parse(relation.relates_to) is Some,
    ensures
        far_ends_are_identities(with_relation(index, url, relation)),
{
    let after = with_relation(index, url, relation);
    assert forall|other: Seq<char>, j: int|
        after.contains_key(other) && 0 <= j < after[other].len() implies uuid_parse(
        (#[trigger] after[other][j]).relates_to,
    ) is Some by {
        if other == url {
            if j < relations_at(index, url).len() {
                assert(after[other][j] == index[url][j]);
            }
        } else {
            assert(after[other][j] == index[other][j]);
        }
    }
}

/// Indexes the declared relations of a document by the path of the node that
/// owns each. The far end of each relation is the text of the identity of
/// the node at the other path.
pub fn process_relations(ingestion_id: &str, relations: Vec<SourceRelation>) -> (index:
    RelationMap)
    requires
        ends_are_given(relations.deep_view()),
    ensures
        index@ == declared_relations(ingestion_id@, relations.deep_view()),
        far_ends_are_identities(index@),
{
    let ghost declared = relations.deep_view();
    let mut index = RelationMap::new();
    let mut i: usize = 0;
    while i < relations.len()
        invariant
            i <= relations.len(),
            declared == relations.deep_view(),
            ends_are_given(declared),
            index@ == declared_relations(ingestion_id@, declared.subrange(0, i as int)),
            far_ends_are_identities(index@),
        decreases relations.len() - i,
    {
        assert(declared.subrange(0, i + 1).drop_last() =~= declared.subrange(0, i as int));
        let r = &relations[i];
        assert(r@ == declared[i as int]);
        let source = get_path(r.source.as_slice());
        let target = get_path(r.target.as_slice());
        let rel = Relation::new(ingestion_id.to_owned(), r.type_field.clone(), target.clone(), true);
        proof {
            lemma_identities_stay(index@, source@, rel@);
        }
        index.push(source.clone(), rel);
        let rel_target = Relation::new(ingestion_id.to_owned(), r.type_field.clone(), source, false);
        proof {
            lemma_identities_stay(index@, target@, rel_target@);
        }
        index.push(target, rel_target);
        i += 1;
    }
    assert(declared.subrange(0, i as int) =~= declared);
    index
}

} // verus!
