//! The in-memory store of embedded chunks and the search over it.
//!
//! A vector is held as the bit patterns of its components. The index does no
//! arithmetic on them: a query comes with the similarity, in millionths, of
//! each stored entry, and the index orders and cuts.

use std::collections::HashMap;
use vstd::prelude::*;
use crate::context::{chunk_block, push_chunk_block};
use crate::error::RagError;
use crate::number::MILLION;
use crate::ranking::{lemma_ranking, positions, ranking, top_ranked};
use crate::text::string_of;

verus! {

broadcast use vstd::std_specs::hash::group_hash_axioms;

/// What an entry of the index holds.
pub struct EntryView {
    pub chunk_id: u32,
    pub vector: Seq<u32>,
    pub document_path: Seq<char>,
    pub chunk_text: Seq<char>,
}

/// One embedded chunk.
#[derive(Debug, Clone)]
pub struct IndexEntry {
    pub chunk_id: u32,
    pub vector: Vec<u32>,
    pub document_path: String,
    pub chunk_text: String,
}

impl View for IndexEntry {
    type V = EntryView;

    open spec fn view(&self) -> EntryView {
        EntryView {
            chunk_id: self.chunk_id,
            vector: self.vector@,
            document_path: self.document_path@,
            chunk_text: self.chunk_text@,
        }
    }
}

/// The index after an insertion. A vector of the wrong length changes
/// nothing. An entry whose chunk id is already held takes the place of the
/// one that holds it; any other goes to the end.
pub open spec fn inserted(entries: Seq<EntryView>, dimension: usize, entry: EntryView) -> Seq<
    EntryView,
> {
    if entry.vector.len() != dimension {
        entries
    } else if holds_id(entries, entry.chunk_id) {
        entries.update(place_of(entries, entry.chunk_id), entry)
    } else {
        entries.push(entry)
    }
}

/// An entry with this chunk id is held.
pub open spec fn holds_id(entries: Seq<EntryView>, chunk_id: u32) -> bool {
    exists|i: int| 0 <= i < entries.len() && (#[trigger] entries[i]).chunk_id == chunk_id
}

/// Where the entry with this chunk id is held.
pub open spec fn place_of(entries: Seq<EntryView>, chunk_id: u32) -> int {
    choose|i: int| 0 <= i < entries.len() && (#[trigger] entries[i]).chunk_id == chunk_id
}

/// Every vector has the dimension, and no chunk id is held twice.
pub open spec fn valid_entries(entries: Seq<EntryView>, dimension: usize) -> bool {
    &&& forall|i: int| 0 <= i < entries.len() ==> (#[trigger] entries[i]).vector.len() == dimension
    &&& forall|i: int, j: int|
        0 <= i < j < entries.len() ==> (#[trigger] entries[i]).chunk_id != (
        #[trigger] entries[j]).chunk_id
}

/// The store of embedded chunks.
pub struct VectorIndex {
    entries: Vec<IndexEntry>,
    places: HashMap<u32, usize>,
    dimension: usize,
}

impl View for VectorIndex {
    type V = Seq<EntryView>;

    closed spec fn view(&self) -> Seq<EntryView> {
        Seq::new(self.entries@.len(), |i: int| self.entries@[i]@)
    }
}

impl VectorIndex {
    /// The index is consistent: every vector has the dimension, and each chunk
    /// id is held once, at the place that the index remembers for it.
    pub closed spec fn wf(&self) -> bool {
        &&& forall|i: int|
            0 <= i < self.entries@.len() ==> {
                &&& (#[trigger] self.entries@[i]).vector@.len() == self.dimension
                &&& self.places@.contains_key(self.entries@[i].chunk_id)
                &&& self.places@[self.entries@[i].chunk_id] == i
            }
        &&& forall|id: u32| #[trigger]
            self.places@.contains_key(id) ==> {
                &&& self.places@[id] < self.entries@.len()
                &&& self.entries@[self.places@[id] as int].chunk_id == id
            }
    }

    /// In a consistent index every vector has the dimension and no chunk id is
    /// held twice.
    pub proof fn lemma_wf(&self)
        requires
            self.wf(),
        ensures
            valid_entries(self@, self.dim()),
    {
        assert forall|i: int, j: int| 0 <= i < j < self@.len() implies (#[trigger] self@[i]).chunk_id
            != (#[trigger] self@[j]).chunk_id by {
            assert(self.places@[self.entries@[i].chunk_id] == i);
            assert(self.places@[self.entries@[j].chunk_id] == j);
        }
    }

    /// The length that every stored vector has.
    pub closed spec fn dim(&self) -> usize {
        self.dimension
    }

    /// An empty index for vectors of length `dimension`.
    pub fn new(dimension: usize) -> (r: Self)
        ensures
            r.wf(),
            r@.len() == 0,
            r.dim() == dimension,
    {
        VectorIndex { entries: Vec::new(), places: HashMap::new(), dimension }
    }

    /// Stores a chunk with its vector.
    pub fn add_vector(
        &mut self,
        chunk_id: u32,
        vector: &Vec<u32>,
        document_path: &str,
        chunk_text: &str,
    ) -> (r: Result<(), RagError>)
        requires
            old(self).wf(),
        ensures
            final(self).wf(),
            final(self).dim() == old(self).dim(),
            final(self)@ == inserted(
                old(self)@,
                old(self).dim(),
                EntryView {
                    chunk_id,
                    vector: vector@,
                    document_path: document_path@,
                    chunk_text: chunk_text@,
                },
            ),
            match r {
                Ok(_) => vector.len() == old(self).dim(),
                Err(e) => vector.len() != old(self).dim() && e == (RagError::DimensionMismatch {
                    expected: old(self).dim(),
                    got: vector.len(),
                }),
            },
    {
        if vector.len() != self.dimension {
            return Err(RagError::DimensionMismatch { expected: self.dimension, got: vector.len() });
        }
        let entry = IndexEntry {
            chunk_id,
            vector: vector.clone(),
            document_path: document_path.to_owned(),
            chunk_text: chunk_text.to_owned(),
        };
        let ghost before = self@;
        let ghost ev = entry@;
        match self.places.get(&chunk_id) {
            Some(at) => {
                let at: usize = *at;
                assert(before[at as int].chunk_id == chunk_id);
                assert(place_of(before, chunk_id) == at) by {
                    let p = place_of(before, chunk_id);
                    assert(self.places@[self.entries@[p].chunk_id] == p);
                }
                self.entries.set(at, entry);
                assert(self@ =~= before.update(at as int, ev));
            },
            None => {
                assert(!holds_id(before, chunk_id)) by {
                    if holds_id(before, chunk_id) {
                        let p = place_of(before, chunk_id);
                        assert(self.places@.contains_key(self.entries@[p].chunk_id));
                    }
                }
                let at = self.entries.len();
                self.entries.push(entry);
                self.places.insert(chunk_id, at);
                assert(self@ =~= before.push(ev));
            },
        }
        Ok(())
    }

    /// Looks up the document path and the text of a chunk.
    pub fn get_chunk_info(&self, chunk_id: u32) -> (r: Option<(String, String)>)
        requires
            self.wf(),
        ensures
            match r {
                Some(info) => {
                    &&& holds_id(self@, chunk_id)
                    &&& info.0@ == self@[place_of(self@, chunk_id)].document_path
                    &&& info.1@ == self@[place_of(self@, chunk_id)].chunk_text
                },
                None => !holds_id(self@, chunk_id),
            },
    {
        match self.places.get(&chunk_id) {
            Some(at) => {
                let at: usize = *at;
                assert(self@[at as int].chunk_id == chunk_id);
                assert(place_of(self@, chunk_id) == at) by {
                    let p = place_of(self@, chunk_id);
                    assert(self.places@[self.entries@[p].chunk_id] == p);
                }
                Some((self.entries[at].document_path.clone(), self.entries[at].chunk_text.clone()))
            },
            None => {
                assert(!holds_id(self@, chunk_id)) by {
                    if holds_id(self@, chunk_id) {
                        let p = place_of(self@, chunk_id);
                        assert(self.places@.contains_key(self.entries@[p].chunk_id));
                    }
                }
                None
            },
        }
    }

    /// The entry at place `at`, in insertion order.
    pub fn entry(&self, at: usize) -> (r: Option<&IndexEntry>)
        requires
            self.wf(),
        ensures
            match r {
                Some(e) => at < self@.len() && e@ == self@[at as int] && e.vector.len()
                    == self.dim(),
                None => at >= self@.len(),
            },
    {
        if at < self.entries.len() {
            Some(&self.entries[at])
        } else {
            None
        }
    }

    /// The dimension of the index.
    pub fn dimension(&self) -> (r: usize)
        ensures
            r == self.dim(),
    {
        self.dimension
    }

    /// The number of chunks held.
    pub fn len(&self) -> (r: usize)
        ensures
            r == self@.len(),
    {
        self.entries.len()
    }

    /// Whether no chunk is held.
    pub fn is_empty(&self) -> (r: bool)
        ensures
            r == (self@.len() == 0),
    {
        self.entries.len() == 0
    }

    /// Forgets every chunk. The dimension stays.
    pub fn clear(&mut self)
        ensures
            final(self).wf(),
            final(self)@.len() == 0,
            final(self).dim() == old(self).dim(),
    {
        self.entries.clear();
        self.places.clear();
    }

    /// The `k` entries most similar to a query, most similar first and equally
    /// similar ones in insertion order. `similarities` holds, for each entry in
    /// insertion order, its similarity to the query in millionths.
    pub fn search_similar(&self, query_vector: &Vec<u32>, similarities: &Vec<u32>, k: usize) -> (r:
        Result<Vec<(u32, u32, String, String)>, RagError>)
        requires
            self.wf(),
        ensures
            match r {
                Ok(found) => {
                    &&& query_vector.len() == self.dim()
                    &&& similarities.len() == self@.len()
                    &&& hit_views(found@) == best_hits(self@, similarities@, k as int)
                },
                Err(e) => e == search_error(
                    self.dim(),
                    self@.len(),
                    query_vector.len(),
                    similarities.len(),
                ) && (query_vector.len() != self.dim() || similarities.len() != self@.len()),
            },
    {
        if query_vector.len() != self.dimension {
            return Err(
                RagError::DimensionMismatch { expected: self.dimension, got: query_vector.len() },
            );
        }
        if similarities.len() != self.entries.len() {
            return Err(
                RagError::ScoreCountMismatch {
                    expected: self.entries.len(),
                    got: similarities.len(),
                },
            );
        }
        let keys = widen(similarities);
        let order = top_ranked(&keys, k);
        let ghost wanted = best_hits(self@, similarities@, k as int);
        let mut found: Vec<(u32, u32, String, String)> = Vec::new();
        let mut i: usize = 0;
        while i < order.len()
            invariant
                i <= order.len() == wanted.len(),
                similarities.len() == self.entries.len(),
                wanted == best_hits(self@, similarities@, k as int),
                positions(order@) == ranking(keys_of(similarities@)).take(order.len() as int),
                forall|j: int| 0 <= j < order.len() ==> (#[trigger] order[j]) < similarities.len(),
                found.len() == i,
                forall|j: int| 0 <= j < i ==> hit_view(#[trigger] found[j]) == wanted[j],
            decreases order.len() - i,
        {
            let at = order[i];
            proof {
                lemma_ranking(keys_of(similarities@));
                assert(positions(order@)[i as int] == at);
                assert(ranking(keys_of(similarities@)).take(order.len() as int)[i as int]
                    == ranking(keys_of(similarities@))[i as int]);
                assert(self@[at as int] == self.entries@[at as int]@);
            }
            let ghost before = found@;
            let entry = &self.entries[at];
            found.push(
                (
                    entry.chunk_id,
                    similarities[at],
                    entry.document_path.clone(),
                    entry.chunk_text.clone(),
                ),
            );
            proof {
                assert(hit_view(found[i as int]) == wanted[i as int]);
                assert forall|j: int| 0 <= j < i implies hit_view(#[trigger] found[j])
                    == wanted[j] by {
                    assert(found[j] == before[j]);
                }
            }
            i += 1;
        }
        assert(hit_views(found@) =~= wanted);
        Ok(found)
    }
}

/// Similarities as the scores by which entries are ranked.
pub open spec fn keys_of(similarities: Seq<u32>) -> Seq<u128> {
    Seq::new(similarities.len(), |i: int| similarities[i] as u128)
}

fn widen(similarities: &Vec<u32>) -> (keys: Vec<u128>)
    ensures
        keys@ == keys_of(similarities@),
{
    let mut keys: Vec<u128> = Vec::new();
    let mut i: usize = 0;
    while i < similarities.len()
        invariant
            i <= similarities.len(),
            keys@ == keys_of(similarities@).take(i as int),
        decreases similarities.len() - i,
    {
        keys.push(similarities[i] as u128);
        assert(keys@ =~= keys_of(similarities@).take(i + 1));
        i += 1;
    }
    assert(keys_of(similarities@).take(similarities.len() as int) =~= keys_of(similarities@));
    keys
}

/// What a search result holds: chunk id, similarity, document path, text.
pub type HitView = (u32, u32, Seq<char>, Seq<char>);

/// What a search result holds.
pub open spec fn hit_view(hit: (u32, u32, String, String)) -> HitView {
    (hit.0, hit.1, hit.2@, hit.3@)
}

/// What each of the search results holds.
pub open spec fn hit_views(hits: Seq<(u32, u32, String, String)>) -> Seq<HitView> {
    Seq::new(hits.len(), |i: int| hit_view(hits[i]))
}

/// The first `k` entries in the order in which they are returned, each with
/// its similarity; all of them where there are fewer.
pub open spec fn best_hits(entries: Seq<EntryView>, similarities: Seq<u32>, k: int) -> Seq<
    HitView,
> {
    let n = if k < entries.len() {
        k
    } else {
        entries.len() as int
    };
    Seq::new(
        n as nat,
        |i: int|
            {
                let at = ranking(keys_of(similarities))[i];
                (
                    entries[at].chunk_id,
                    similarities[at],
                    entries[at].document_path,
                    entries[at].chunk_text,
                )
            },
    )
}

/// The error of a search: a query of the wrong length comes first, then a
/// wrong number of similarities.
pub open spec fn search_error(dimension: usize, held: nat, query_len: usize, given: usize) -> RagError {
    if query_len != dimension {
        RagError::DimensionMismatch { expected: dimension, got: query_len }
    } else {
        RagError::ScoreCountMismatch { expected: held as usize, got: given }
    }
}

/// A search returns at most `k` entries of the index, and similarity never
/// rises from one to the next; equally similar entries come in insertion
/// order.
pub proof fn lemma_best_hits(entries: Seq<EntryView>, similarities: Seq<u32>, k: int)
    requires
        similarities.len() == entries.len(),
        0 <= k,
    ensures
        best_hits(entries, similarities, k).len() <= k,
        best_hits(entries, similarities, k).len() <= entries.len(),
        forall|i: int, j: int|
            0 <= i < j < best_hits(entries, similarities, k).len() ==> (#[trigger] best_hits(
                entries,
                similarities,
                k,
            )[i]).1 >= (#[trigger] best_hits(entries, similarities, k)[j]).1,
        forall|i: int|
            0 <= i < best_hits(entries, similarities, k).len() ==> {
                let at = ranking(keys_of(similarities))[i];
                &&& 0 <= at < entries.len()
                &&& (#[trigger] best_hits(entries, similarities, k)[i]).0 == entries[at].chunk_id
                &&& best_hits(entries, similarities, k)[i].1 == similarities[at]
            },
        forall|i: int, j: int|
            0 <= i < j < best_hits(entries, similarities, k).len() && similarities[ranking(
                keys_of(similarities),
            )[i]] == similarities[ranking(keys_of(similarities))[j]] ==> #[trigger] ranking(
                keys_of(similarities),
            )[i] < #[trigger] ranking(keys_of(similarities))[j],
{
    let keys = keys_of(similarities);
    lemma_ranking(keys);
    let order = ranking(keys);
    let best = best_hits(entries, similarities, k);
    assert forall|i: int, j: int| 0 <= i < j < best.len() implies (#[trigger] best[i]).1 >= (
    #[trigger] best[j]).1 by {
        assert(keys[order[i]] >= keys[order[j]]);
    }
    assert forall|i: int, j: int|
        0 <= i < j < best.len() && similarities[order[i]] == similarities[order[j]] implies #[trigger] order[i]
        < #[trigger] order[j] by {
        assert(keys[order[i]] == keys[order[j]]);
    }
}

/// A vector of the wrong length leaves the index as it was, and with it the
/// result of every search.
pub proof fn lemma_rejected_insert(
    entries: Seq<EntryView>,
    dimension: usize,
    entry: EntryView,
    similarities: Seq<u32>,
    k: int,
)
    requires
        entry.vector.len() != dimension,
    ensures
        inserted(entries, dimension, entry) == entries,
        best_hits(inserted(entries, dimension, entry), similarities, k) == best_hits(
            entries,
            similarities,
            k,
        ),
{
}

/// An insertion keeps the index valid.
pub proof fn lemma_inserted_valid(entries: Seq<EntryView>, dimension: usize, entry: EntryView)
    requires
        valid_entries(entries, dimension),
    ensures
        valid_entries(inserted(entries, dimension, entry), dimension),
{
    let after = inserted(entries, dimension, entry);
    if entry.vector.len() == dimension {
        if holds_id(entries, entry.chunk_id) {
            let p = place_of(entries, entry.chunk_id);
            assert forall|i: int, j: int| 0 <= i < j < after.len() implies (#[trigger] after[i]).chunk_id
                != (#[trigger] after[j]).chunk_id by {
                assert(entries[i].chunk_id != entries[j].chunk_id);
            }
        } else {
            assert forall|i: int, j: int| 0 <= i < j < after.len() implies (#[trigger] after[i]).chunk_id
                != (#[trigger] after[j]).chunk_id by {
                if j < entries.len() {
                    assert(entries[i].chunk_id != entries[j].chunk_id);
                } else {
                    assert(entries[i].chunk_id != entry.chunk_id);
                }
            }
        }
    }
}

/// The hits whose similarity is at least `threshold`, in order.
pub open spec fn at_least(hits: Seq<HitView>, threshold: u32) -> Seq<HitView>
    decreases hits.len(),
{
    if hits.len() == 0 {
        seq![]
    } else if hits.last().1 >= threshold {
        at_least(hits.drop_last(), threshold).push(hits.last())
    } else {
        at_least(hits.drop_last(), threshold)
    }
}

/// Twice `k`, or the greatest number there is.
pub open spec fn doubled(k: usize) -> usize {
    if 2 * k <= usize::MAX {
        (2 * k) as usize
    } else {
        usize::MAX
    }
}

/// The first `k` of `hits`, or all of them where there are fewer.
pub open spec fn first_hits(hits: Seq<HitView>, k: int) -> Seq<HitView> {
    if 0 <= k < hits.len() {
        hits.take(k)
    } else {
        hits
    }
}

/// What a search for relevant chunks returns: of the `2 * k` most similar
/// entries those that reach the threshold, and of these the first `k`.
pub open spec fn relevant_hits(
    entries: Seq<EntryView>,
    similarities: Seq<u32>,
    threshold: u32,
    k: usize,
) -> Seq<HitView> {
    first_hits(at_least(best_hits(entries, similarities, doubled(k) as int), threshold), k as int)
}

/// The context text for a list of hits: one block for each, numbered from one.
pub open spec fn context_of(hits: Seq<HitView>) -> Seq<char>
    decreases hits.len(),
{
    if hits.len() == 0 {
        seq![]
    } else {
        context_of(hits.drop_last()) + chunk_block(
            hits.len(),
            hits.last().1,
            hits.last().2,
            hits.last().3,
        )
    }
}

/// A search engine: an index and the similarity that a hit has to reach.
pub struct RAGSearchEngine {
    vector_index: VectorIndex,
    relevance_threshold: u32,
}

impl View for RAGSearchEngine {
    type V = Seq<EntryView>;

    closed spec fn view(&self) -> Seq<EntryView> {
        self.vector_index@
    }
}

impl RAGSearchEngine {
    /// The index is consistent.
    pub closed spec fn wf(&self) -> bool {
        self.vector_index.wf()
    }

    /// The length that every stored vector has.
    pub closed spec fn dim(&self) -> usize {
        self.vector_index.dim()
    }

    /// The similarity, in millionths, that a hit has to reach.
    pub closed spec fn threshold(&self) -> u32 {
        self.relevance_threshold
    }

    /// In a consistent engine every vector has the dimension and no chunk id
    /// is held twice.
    pub proof fn lemma_wf(&self)
        requires
            self.wf(),
        ensures
            valid_entries(self@, self.dim()),
    {
        self.vector_index.lemma_wf();
    }

    /// An engine without chunks.
    pub fn new(dimension: usize, relevance_threshold: u32) -> (r: Self)
        ensures
            r.wf(),
            r@.len() == 0,
            r.dim() == dimension,
            r.threshold() == relevance_threshold,
    {
        RAGSearchEngine { vector_index: VectorIndex::new(dimension), relevance_threshold }
    }

    /// Stores a chunk with its vector.
    pub fn add_chunk(
        &mut self,
        chunk_id: u32,
        vector: &Vec<u32>,
        document_path: &str,
        chunk_text: &str,
    ) -> (r: Result<(), RagError>)
        requires
            old(self).wf(),
        ensures
            final(self).wf(),
            final(self).dim() == old(self).dim(),
            final(self).threshold() == old(self).threshold(),
            final(self)@ == inserted(
                old(self)@,
                old(self).dim(),
                EntryView {
                    chunk_id,
                    vector: vector@,
                    document_path: document_path@,
                    chunk_text: chunk_text@,
                },
            ),
            match r {
                Ok(_) => vector.len() == old(self).dim(),
                Err(e) => vector.len() != old(self).dim() && e == (RagError::DimensionMismatch {
                    expected: old(self).dim(),
                    got: vector.len(),
                }),
            },
    {
        self.vector_index.add_vector(chunk_id, vector, document_path, chunk_text)
    }

    /// The `k` most similar chunks that reach the threshold.
    pub fn search_relevant_chunks(
        &self,
        _query: &str,
        query_vector: &Vec<u32>,
        similarities: &Vec<u32>,
        k: usize,
    ) -> (r: Result<Vec<(u32, u32, String, String)>, RagError>)
        requires
            self.wf(),
        ensures
            match r {
                Ok(found) => {
                    &&& query_vector.len() == self.dim()
                    &&& similarities.len() == self@.len()
                    &&& hit_views(found@) == relevant_hits(
                        self@,
                        similarities@,
                        self.threshold(),
                        k,
                    )
                },
                Err(e) => e == search_error(
                    self.dim(),
                    self@.len(),
                    query_vector.len(),
                    similarities.len(),
                ) && (query_vector.len() != self.dim() || similarities.len() != self@.len()),
            },
    {
        let wide: usize = if k <= usize::MAX / 2 {
            2 * k
        } else {
            usize::MAX
        };
        let found = match self.vector_index.search_similar(query_vector, similarities, wide) {
            Ok(found) => found,
            Err(e) => { return Err(e); },
        };
        Ok(keep_relevant(&found, self.relevance_threshold, k))
    }

    /// The context text for the `context_size` most similar chunks that reach
    /// the threshold.
    pub fn get_context_for_question(
        &self,
        question: &str,
        question_vector: &Vec<u32>,
        similarities: &Vec<u32>,
        context_size: usize,
    ) -> (r: Result<String, RagError>)
        requires
            self.wf(),
        ensures
            match r {
                Ok(context) => {
                    &&& question_vector.len() == self.dim()
                    &&& similarities.len() == self@.len()
                    &&& context@ == context_of(
                        relevant_hits(self@, similarities@, self.threshold(), context_size),
                    )
                },
                Err(e) => e == search_error(
                    self.dim(),
                    self@.len(),
                    question_vector.len(),
                    similarities.len(),
                ) && (question_vector.len() != self.dim() || similarities.len() != self@.len()),
            },
    {
        let found = match self.search_relevant_chunks(
            question,
            question_vector,
            similarities,
            context_size,
        ) {
            Ok(found) => found,
            Err(e) => { return Err(e); },
        };
        let ghost hits = hit_views(found@);
        let mut out: Vec<char> = Vec::new();
        let mut i: usize = 0;
        while i < found.len()
            invariant
                i <= found.len(),
                hits == hit_views(found@),
                out@ == context_of(hits.take(i as int)),
            decreases found.len() - i,
        {
            proof {
                assert(hits.take(i + 1).drop_last() == hits.take(i as int));
                assert(hits.take(i + 1).last() == hit_view(found[i as int]));
            }
            push_chunk_block(
                &mut out,
                i as u128 + 1,
                found[i].1,
                found[i].2.as_str(),
                found[i].3.as_str(),
            );
            i += 1;
        }
        assert(hits.take(found.len() as int) == hits);
        Ok(string_of(&out))
    }

    /// Sets the similarity that a hit has to reach, at most one.
    pub fn set_relevance_threshold(&mut self, threshold: u32)
        ensures
            final(self).threshold() == if threshold > MILLION {
                MILLION
            } else {
                threshold
            },
            final(self)@ == old(self)@,
            final(self).dim() == old(self).dim(),
            old(self).wf() ==> final(self).wf(),
    {
        self.relevance_threshold = if threshold > MILLION {
            MILLION
        } else {
            threshold
        };
    }

    /// The similarity that a hit has to reach.
    pub fn get_relevance_threshold(&self) -> (r: u32)
        ensures
            r == self.threshold(),
    {
        self.relevance_threshold
    }

    /// The index that the engine searches.
    pub fn index(&self) -> (r: &VectorIndex)
        ensures
            r@ == self@,
            r.dim() == self.dim(),
            r.wf() == self.wf(),
    {
        &self.vector_index
    }

    /// The number of chunks held.
    pub fn len(&self) -> (r: usize)
        ensures
            r == self@.len(),
    {
        self.vector_index.len()
    }

    /// Forgets every chunk. Dimension and threshold stay.
    pub fn clear(&mut self)
        ensures
            final(self).wf(),
            final(self)@.len() == 0,
            final(self).dim() == old(self).dim(),
            final(self).threshold() == old(self).threshold(),
    {
        self.vector_index.clear();
    }

    /// Puts what the storage holds into the index, in the order given. A
    /// chunk whose vector could not be read, or has the wrong length, is
    /// passed over; the others are stored. Returns how many were stored.
    pub fn load_vectors(&mut self, stored: &Vec<StoredChunk>) -> (count: usize)
        requires
            old(self).wf(),
        ensures
            final(self).wf(),
            final(self).dim() == old(self).dim(),
            final(self).threshold() == old(self).threshold(),
            final(self)@ == loaded(old(self)@, old(self).dim(), stored_views(stored@)),
            count == usable_count(stored_views(stored@), old(self).dim()),
    {
        let ghost all = stored_views(stored@);
        let ghost start = self@;
        let ghost dimension = self.dim();
        let mut count: usize = 0;
        let mut i: usize = 0;
        while i < stored.len()
            invariant
                i <= stored.len(),
                all == stored_views(stored@),
                self.wf(),
                self.dim() == dimension,
                self.threshold() == old(self).threshold(),
                self@ == loaded(start, dimension, all.take(i as int)),
                count == usable_count(all.take(i as int), dimension),
                count <= i,
            decreases stored.len() - i,
        {
            proof {
                assert(all.take(i + 1).drop_last() == all.take(i as int));
                assert(all.take(i + 1).last() == stored[i as int]@);
            }
            let chunk = &stored[i];
            match &chunk.vector {
                Some(vector) => {
                    let added = self.add_chunk(
                        chunk.chunk_id,
                        vector,
                        chunk.document_path.as_str(),
                        chunk.chunk_text.as_str(),
                    );
                    if added.is_ok() {
                        count += 1;
                    }
                },
                None => {},
            }
            i += 1;
        }
        assert(all.take(stored.len() as int) == all);
        count
    }
}

/// A chunk as the storage holds it. The vector is missing where what was
/// stored could not be read as a vector.
pub struct StoredChunk {
    pub chunk_id: u32,
    pub vector: Option<Vec<u32>>,
    pub document_path: String,
    pub chunk_text: String,
}

/// What a stored chunk holds.
pub struct StoredView {
    pub chunk_id: u32,
    pub vector: Option<Seq<u32>>,
    pub document_path: Seq<char>,
    pub chunk_text: Seq<char>,
}

impl View for StoredChunk {
    type V = StoredView;

    open spec fn view(&self) -> StoredView {
        StoredView {
            chunk_id: self.chunk_id,
            vector: match self.vector {
                Some(v) => Some(v@),
                None => None,
            },
            document_path: self.document_path@,
            chunk_text: self.chunk_text@,
        }
    }
}

/// What each of the stored chunks holds.
pub open spec fn stored_views(stored: Seq<StoredChunk>) -> Seq<StoredView> {
    Seq::new(stored.len(), |i: int| stored[i]@)
}

/// A stored chunk can be put into an index of this dimension: its vector
/// was read and has this length.
pub open spec fn usable(chunk: StoredView, dimension: usize) -> bool {
    chunk.vector is Some && chunk.vector->0.len() == dimension
}

/// How many of the stored chunks can be put into an index of this dimension.
pub open spec fn usable_count(stored: Seq<StoredView>, dimension: usize) -> int
    decreases stored.len(),
{
    if stored.len() == 0 {
        0
    } else {
        usable_count(stored.drop_last(), dimension) + if usable(stored.last(), dimension) {
            1int
        } else {
            0int
        }
    }
}

/// The index after the stored chunks were put into it, one after the other.
pub open spec fn loaded(entries: Seq<EntryView>, dimension: usize, stored: Seq<StoredView>) -> Seq<
    EntryView,
>
    decreases stored.len(),
{
    if stored.len() == 0 {
        entries
    } else {
        let before = loaded(entries, dimension, stored.drop_last());
        match stored.last().vector {
            Some(vector) => inserted(
                before,
                dimension,
                EntryView {
                    chunk_id: stored.last().chunk_id,
                    vector,
                    document_path: stored.last().document_path,
                    chunk_text: stored.last().chunk_text,
                },
            ),
            None => before,
        }
    }
}

/// Chunks that cannot be used leave the index as it was.
pub proof fn lemma_unusable_chunks_change_nothing(
    entries: Seq<EntryView>,
    dimension: usize,
    stored: Seq<StoredView>,
)
    requires
        usable_count(stored, dimension) == 0,
    ensures
        loaded(entries, dimension, stored) == entries,
    decreases stored.len(),
{
    if stored.len() > 0 {
        lemma_usable_count_bounds(stored.drop_last(), dimension);
        lemma_unusable_chunks_change_nothing(entries, dimension, stored.drop_last());
    }
}

/// No more chunks can be used than there are.
pub proof fn lemma_usable_count_bounds(stored: Seq<StoredView>, dimension: usize)
    ensures
        0 <= usable_count(stored, dimension) <= stored.len(),
    decreases stored.len(),
{
    if stored.len() > 0 {
        lemma_usable_count_bounds(stored.drop_last(), dimension);
    }
}

/// Of `found` the hits that reach `threshold`, and of these the first `k`.
pub fn keep_relevant(found: &Vec<(u32, u32, String, String)>, threshold: u32, k: usize) -> (r: Vec<
    (u32, u32, String, String),
>)
    ensures
        hit_views(r@) == first_hits(at_least(hit_views(found@), threshold), k as int),
{
    let ghost hits = hit_views(found@);
    let mut kept: Vec<(u32, u32, String, String)> = Vec::new();
    let mut i: usize = 0;
    assert(hit_views(kept@) =~= at_least(hits.take(0), threshold));
    while i < found.len()
        invariant
            i <= found.len(),
            hits == hit_views(found@),
            hit_views(kept@) == at_least(hits.take(i as int), threshold),
        decreases found.len() - i,
    {
        proof {
            assert(hits.take(i + 1).drop_last() == hits.take(i as int));
            assert(hits.take(i + 1).last() == hit_view(found[i as int]));
        }
        if found[i].1 >= threshold {
            let ghost before = hit_views(kept@);
            kept.push((found[i].0, found[i].1, found[i].2.clone(), found[i].3.clone()));
            assert(hit_views(kept@) =~= before.push(hit_view(found[i as int])));
        }
        i += 1;
    }
    assert(hits.take(found.len() as int) == hits);
    if k < kept.len() {
        let ghost all = hit_views(kept@);
        kept.truncate(k);
        assert(hit_views(kept@) =~= all.take(k as int));
    }
    kept
}

/// Similarity never rises from one hit to the next.
pub open spec fn falling(hits: Seq<HitView>) -> bool {
    forall|i: int, j: int| 0 <= i < j < hits.len() ==> (#[trigger] hits[i]).1 >= (#[trigger] hits[j]).1
}

/// The hits that reach a threshold are hits, they reach it, and they fall
/// where the hits they were taken from do.
pub proof fn lemma_at_least(hits: Seq<HitView>, threshold: u32)
    ensures
        at_least(hits, threshold).len() <= hits.len(),
        forall|i: int|
            0 <= i < at_least(hits, threshold).len() ==> (#[trigger] at_least(hits, threshold)[i]).1
                >= threshold && hits.contains(at_least(hits, threshold)[i]),
        falling(hits) ==> falling(at_least(hits, threshold)),
    decreases hits.len(),
{
    if hits.len() > 0 {
        let front = hits.drop_last();
        let out = at_least(hits, threshold);
        let inner = at_least(front, threshold);
        lemma_at_least(front, threshold);
        assert forall|i: int| 0 <= i < out.len() implies (#[trigger] out[i]).1 >= threshold
            && hits.contains(out[i]) by {
            if i < inner.len() {
                assert(out[i] == inner[i]);
                let k = choose|k: int| 0 <= k < front.len() && front[k] == inner[i];
                assert(hits[k] == out[i]);
            } else {
                assert(hits[hits.len() - 1] == out[i]);
            }
        }
        if falling(hits) {
            assert(falling(front)) by {
                assert forall|i: int, j: int| 0 <= i < j < front.len() implies (#[trigger] front[i]).1
                    >= (#[trigger] front[j]).1 by {
                    assert(hits[i].1 >= hits[j].1);
                }
            }
            assert forall|i: int, j: int| 0 <= i < j < out.len() implies (#[trigger] out[i]).1 >= (
            #[trigger] out[j]).1 by {
                if j < inner.len() {
                    assert(inner[i].1 >= inner[j].1);
                } else {
                    assert(out[i] == inner[i]);
                    let k = choose|k: int| 0 <= k < front.len() && front[k] == inner[i];
                    assert(hits[k].1 >= hits[hits.len() - 1].1);
                }
            }
        }
    }
}

/// A search for relevant chunks returns at most `k` hits, each of which
/// reaches the threshold, and similarity never rises from one to the next.
pub proof fn lemma_relevant_hits(
    entries: Seq<EntryView>,
    similarities: Seq<u32>,
    threshold: u32,
    k: usize,
)
    requires
        similarities.len() == entries.len(),
    ensures
        relevant_hits(entries, similarities, threshold, k).len() <= k,
        falling(relevant_hits(entries, similarities, threshold, k)),
        forall|i: int|
            0 <= i < relevant_hits(entries, similarities, threshold, k).len() ==> (
            #[trigger] relevant_hits(entries, similarities, threshold, k)[i]).1 >= threshold,
{
    let wide = best_hits(entries, similarities, doubled(k) as int);
    lemma_best_hits(entries, similarities, doubled(k) as int);
    assert(falling(wide));
    lemma_at_least(wide, threshold);
    let kept = at_least(wide, threshold);
    let out = relevant_hits(entries, similarities, threshold, k);
    assert forall|i: int, j: int| 0 <= i < j < out.len() implies (#[trigger] out[i]).1 >= (
    #[trigger] out[j]).1 by {
        assert(kept[i].1 >= kept[j].1);
    }
    assert forall|i: int| 0 <= i < out.len() implies (#[trigger] out[i]).1 >= threshold by {
        assert(out[i] == kept[i]);
    }
}

} // verus!
