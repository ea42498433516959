//! Gathering context for a question from the remote vector store and the local
//! index.
//!
//! What the remote store returned comes first, then the local hits. A
//! candidate whose document is already among the sources is dropped, whichever
//! side it comes from. Each source that is kept adds its block to the context
//! text.

use vstd::prelude::*;
use crate::context::{chunk_block, push_chunk_block};
use crate::error::RagError;
use crate::pattern::{pieces, split};
use crate::quality::chunk_header;
use crate::text::{chars_of, same, string_of, views};
use crate::types::SearchResult;
use crate::vector_search::{
    doubled,
    hit_view,
    hit_views,
    keep_relevant,
    relevant_hits,
    search_error,
    EntryView,
    HitView,
    RAGSearchEngine,
};

verus! {

/// The similarity that a hit of the expansion search has to exceed.
pub const EXPANSION_FLOOR: u32 = 300_000;

/// What a search result holds.
pub struct SourceView {
    pub chunk_id: u32,
    pub document_path: Seq<char>,
    pub chunk_text: Seq<char>,
    pub similarity: u32,
}

impl View for SearchResult {
    type V = SourceView;

    open spec fn view(&self) -> SourceView {
        SourceView {
            chunk_id: self.chunk_id,
            document_path: self.document_path@,
            chunk_text: self.chunk_text@,
            similarity: self.similarity,
        }
    }
}

/// The views of a list of search results.
pub open spec fn source_views(sources: Seq<SearchResult>) -> Seq<SourceView> {
    Seq::new(sources.len(), |i: int| sources[i]@)
}

/// One match of the remote vector store, with what its metadata holds of the
/// chunk: the source path, the text and the chunk id, as far as they are
/// there. The score is a similarity in millionths.
#[derive(Debug, Clone)]
pub struct VectorMatch {
    pub id: String,
    pub score: u32,
    pub source: Option<String>,
    pub text: Option<String>,
    pub chunk_id: Option<u64>,
}

/// What a remote match holds.
pub struct MatchView {
    pub score: u32,
    pub source: Option<Seq<char>>,
    pub text: Option<Seq<char>>,
    pub chunk_id: Option<u64>,
}

impl View for VectorMatch {
    type V = MatchView;

    open spec fn view(&self) -> MatchView {
        MatchView {
            score: self.score,
            source: match self.source {
                Some(s) => Some(s@),
                None => None,
            },
            text: match self.text {
                Some(t) => Some(t@),
                None => None,
            },
            chunk_id: self.chunk_id,
        }
    }
}

/// What each of the matches holds.
pub open spec fn match_views(matches: Seq<VectorMatch>) -> Seq<MatchView> {
    Seq::new(matches.len(), |i: int| matches[i]@)
}

/// A number reduced to 32 bits.
pub open spec fn low32(n: int) -> u32 {
    (n % 0x1_0000_0000) as u32
}

/// The candidates among remote matches: those that name a source and hold a
/// text. The chunk id is the one the match holds, or else the position of the
/// match, either reduced to 32 bits.
pub open spec fn remote_candidates(matches: Seq<MatchView>) -> Seq<SourceView>
    decreases matches.len(),
{
    if matches.len() == 0 {
        seq![]
    } else {
        let m = matches.last();
        let before = remote_candidates(matches.drop_last());
        if m.source is Some && m.text is Some {
            before.push(
                SourceView {
                    chunk_id: match m.chunk_id {
                        Some(id) => low32(id as int),
                        None => low32(matches.len() - 1),
                    },
                    document_path: m.source->0,
                    chunk_text: m.text->0,
                    similarity: m.score,
                },
            )
        } else {
            before
        }
    }
}

/// The candidates among local hits: all of them.
pub open spec fn local_candidates(hits: Seq<HitView>) -> Seq<SourceView> {
    Seq::new(
        hits.len(),
        |i: int|
            SourceView {
                chunk_id: hits[i].0,
                document_path: hits[i].2,
                chunk_text: hits[i].3,
                similarity: hits[i].1,
            },
    )
}

/// A source from the document `path` is among `sources`.
pub open spec fn has_path(sources: Seq<SourceView>, path: Seq<char>) -> bool {
    exists|i: int| 0 <= i < sources.len() && (#[trigger] sources[i]).document_path == path
}

/// Context text and sources.
pub struct Gathered {
    pub context: Seq<char>,
    pub sources: Seq<SourceView>,
}

/// What has been gathered after one more candidate: nothing new where its
/// document is known, else the candidate as a further source, and its block,
/// numbered by its place among the sources, at the end of the text.
pub open spec fn merge_one(state: Gathered, candidate: SourceView) -> Gathered {
    if has_path(state.sources, candidate.document_path) {
        state
    } else {
        Gathered {
            context: state.context + chunk_block(
                state.sources.len() + 1,
                candidate.similarity,
                candidate.document_path,
                candidate.chunk_text,
            ),
            sources: state.sources.push(candidate),
        }
    }
}

/// What has been gathered after a list of candidates, taken in order.
pub open spec fn merge_all(state: Gathered, candidates: Seq<SourceView>) -> Gathered
    decreases candidates.len(),
{
    if candidates.len() == 0 {
        state
    } else {
        merge_one(merge_all(state, candidates.drop_last()), candidates.last())
    }
}

/// The text that an expansion search adds: a block for each hit above the
/// expansion floor, numbered by the chunk headers that the text holds so far.
pub open spec fn expansion_text(hits: Seq<HitView>) -> Seq<char>
    decreases hits.len(),
{
    if hits.len() == 0 {
        seq![]
    } else {
        let before = expansion_text(hits.drop_last());
        if hits.last().1 > EXPANSION_FLOOR {
            before + chunk_block(
                pieces(before, chunk_header()).len(),
                hits.last().1,
                hits.last().2,
                hits.last().3,
            )
        } else {
            before
        }
    }
}

/// Nothing gathered yet.
pub open spec fn nothing() -> Gathered {
    Gathered { context: seq![], sources: seq![] }
}

/// What the remote matches give; nothing where there is no remote store or it
/// failed.
pub open spec fn from_remote(remote: Option<Seq<MatchView>>) -> Gathered {
    match remote {
        Some(matches) => merge_all(nothing(), remote_candidates(matches)),
        None => nothing(),
    }
}

/// Whether the local index is searched: where the remote store gave fewer
/// sources than asked for.
pub open spec fn searches_locally(remote: Option<Seq<MatchView>>, context_size: usize) -> bool {
    from_remote(remote).sources.len() < context_size
}

/// What retrieval gives. After the remote matches the local index is searched
/// for `context_size` relevant chunks, unless there are that many sources
/// already. Where expansion is on and fewer than half of `context_size`
/// sources were found, a further search adds text, and no sources: it asks
/// for twice the missing number of chunks, and in place of the engine's
/// threshold it takes the chunks above the expansion floor.
pub open spec fn retrieved(
    entries: Seq<EntryView>,
    similarities: Seq<u32>,
    threshold: u32,
    remote: Option<Seq<MatchView>>,
    context_size: usize,
    expand: bool,
) -> Gathered {
    let first = from_remote(remote);
    let second = if first.sources.len() < context_size {
        merge_all(
            first,
            local_candidates(relevant_hits(entries, similarities, threshold, context_size)),
        )
    } else {
        first
    };
    if expand && second.sources.len() < context_size / 2 {
        Gathered {
            context: second.context + expansion_text(
                relevant_hits(
                    entries,
                    similarities,
                    (EXPANSION_FLOOR + 1) as u32,
                    doubled((context_size - second.sources.len()) as usize),
                ),
            ),
            sources: second.sources,
        }
    } else {
        second
    }
}

/// Whether a source from the document `path` is among `sources`.
fn knows_path(sources: &Vec<SearchResult>, path: &Vec<char>) -> (r: bool)
    ensures
        r == has_path(source_views(sources@), path@),
{
    let mut i: usize = 0;
    while i < sources.len()
        invariant
            i <= sources.len(),
            forall|j: int| 0 <= j < i ==> (#[trigger] source_views(sources@)[j]).document_path != path@,
        decreases sources.len() - i,
    {
        let p = chars_of(sources[i].document_path.as_str());
        assert(source_views(sources@)[i as int].document_path == p@);
        if same(&p, path) {
            return true;
        }
        i += 1;
    }
    false
}

/// Takes one candidate into what has been gathered.
fn take_candidate(
    context: &mut Vec<char>,
    sources: &mut Vec<SearchResult>,
    chunk_id: u32,
    document_path: &str,
    chunk_text: &str,
    similarity: u32,
)
    ensures
        (Gathered { context: final(context)@, sources: source_views(final(sources)@) })
            == merge_one(
            Gathered { context: old(context)@, sources: source_views(old(sources)@) },
            SourceView {
                chunk_id,
                document_path: document_path@,
                chunk_text: chunk_text@,
                similarity,
            },
        ),
{
    let path = chars_of(document_path);
    if !knows_path(sources, &path) {
        let ghost before = source_views(sources@);
        push_chunk_block(
            context,
            sources.len() as u128 + 1,
            similarity,
            document_path,
            chunk_text,
        );
        sources.push(
            SearchResult {
                chunk_id,
                document_path: document_path.to_owned(),
                chunk_text: chunk_text.to_owned(),
                similarity,
            },
        );
        assert(source_views(sources@) =~= before.push(
            SourceView {
                chunk_id,
                document_path: document_path@,
                chunk_text: chunk_text@,
                similarity,
            },
        ));
    }
}

/// Takes the remote candidates into what has been gathered.
fn take_remote(context: &mut Vec<char>, sources: &mut Vec<SearchResult>, matches: &Vec<VectorMatch>)
    ensures
        (Gathered { context: final(context)@, sources: source_views(final(sources)@) })
            == merge_all(
            Gathered { context: old(context)@, sources: source_views(old(sources)@) },
            remote_candidates(match_views(matches@)),
        ),
{
    let ghost start = Gathered { context: context@, sources: source_views(sources@) };
    let ghost all = match_views(matches@);
    let mut i: usize = 0;
    assert(remote_candidates(all.take(0)) =~= Seq::<SourceView>::empty());
    while i < matches.len()
        invariant
            i <= matches.len(),
            all == match_views(matches@),
            (Gathered { context: context@, sources: source_views(sources@) }) == merge_all(
                start,
                remote_candidates(all.take(i as int)),
            ),
        decreases matches.len() - i,
    {
        proof {
            assert(all.take(i + 1).drop_last() == all.take(i as int));
            assert(all.take(i + 1).last() == matches[i as int]@);
            let cs = remote_candidates(all.take(i + 1));
            let m = matches[i as int]@;
            if m.source is Some && m.text is Some {
                assert(cs.drop_last() == remote_candidates(all.take(i as int)));
            }
        }
        let m = &matches[i];
        match (&m.source, &m.text) {
            (Some(source), Some(text)) => {
                let chunk_id: u32 = match m.chunk_id {
                    Some(id) => (id % 0x1_0000_0000) as u32,
                    None => (i as u64 % 0x1_0000_0000) as u32,
                };
                take_candidate(context, sources, chunk_id, source.as_str(), text.as_str(), m.score);
            },
            _ => {},
        }
        i += 1;
    }
    assert(all.take(matches.len() as int) == all);
}

/// Takes local hits into what has been gathered.
fn take_local(
    context: &mut Vec<char>,
    sources: &mut Vec<SearchResult>,
    hits: &Vec<(u32, u32, String, String)>,
)
    ensures
        (Gathered { context: final(context)@, sources: source_views(final(sources)@) })
            == merge_all(
            Gathered { context: old(context)@, sources: source_views(old(sources)@) },
            local_candidates(hit_views(hits@)),
        ),
{
    let ghost start = Gathered { context: context@, sources: source_views(sources@) };
    let ghost all = local_candidates(hit_views(hits@));
    let mut i: usize = 0;
    while i < hits.len()
        invariant
            i <= hits.len(),
            all == local_candidates(hit_views(hits@)),
            (Gathered { context: context@, sources: source_views(sources@) }) == merge_all(
                start,
                all.take(i as int),
            ),
        decreases hits.len() - i,
    {
        proof {
            assert(all.take(i + 1).drop_last() == all.take(i as int));
        }
        take_candidate(
            context,
            sources,
            hits[i].0,
            hits[i].2.as_str(),
            hits[i].3.as_str(),
            hits[i].1,
        );
        i += 1;
    }
    assert(all.take(hits.len() as int) == all);
}

/// The text that an expansion search adds for `hits`.
pub fn expand_context(hits: &Vec<(u32, u32, String, String)>) -> (r: Vec<char>)
    ensures
        r@ == expansion_text(hit_views(hits@)),
{
    let ghost all = hit_views(hits@);
    let header = chars_of("--- Chunk");
    let mut out: Vec<char> = Vec::new();
    let mut i: usize = 0;
    while i < hits.len()
        invariant
            i <= hits.len(),
            all == hit_views(hits@),
            header@ == chunk_header(),
            out@ == expansion_text(all.take(i as int)),
        decreases hits.len() - i,
    {
        proof {
            assert(all.take(i + 1).drop_last() == all.take(i as int));
            assert(all.take(i + 1).last() == hit_view(hits[i as int]));
        }
        if hits[i].1 > EXPANSION_FLOOR {
            let parts = split(&out, &header);
            assert(parts.len() == views(parts@).len());
            push_chunk_block(
                &mut out,
                parts.len() as u128,
                hits[i].1,
                hits[i].2.as_str(),
                hits[i].3.as_str(),
            );
        }
        i += 1;
    }
    assert(all.take(hits.len() as int) == all);
    out
}

/// Gathers context for a question. `remote` is what the remote vector store
/// returned, if there is one and it answered; `similarities` holds the
/// similarity of each indexed entry to the question.
pub fn retrieve_enhanced_context(
    engine: &RAGSearchEngine,
    question: &str,
    question_vector: &Vec<u32>,
    similarities: &Vec<u32>,
    remote: Option<&Vec<VectorMatch>>,
    context_size: usize,
    expand: bool,
) -> (r: Result<(String, Vec<SearchResult>), RagError>)
    requires
        engine.wf(),
    ensures
        match r {
            Ok(found) => {
                &&& (Gathered { context: found.0@, sources: source_views(found.1@) }) == retrieved(
                    engine@,
                    similarities@,
                    engine.threshold(),
                    remote_view(remote),
                    context_size,
                    expand,
                )
                &&& searches_locally(remote_view(remote), context_size) ==> question_vector.len()
                    == engine.dim() && similarities.len() == engine@.len()
            },
            Err(e) => {
                &&& searches_locally(remote_view(remote), context_size)
                &&& question_vector.len() != engine.dim() || similarities.len() != engine@.len()
                &&& e == search_error(
                    engine.dim(),
                    engine@.len(),
                    question_vector.len(),
                    similarities.len(),
                )
            },
        },
{
    let mut context: Vec<char> = Vec::new();
    let mut sources: Vec<SearchResult> = Vec::new();
    assert(source_views(sources@) =~= Seq::<SourceView>::empty());
    match remote {
        Some(matches) => { take_remote(&mut context, &mut sources, matches); },
        None => {},
    }
    if sources.len() < context_size {
        let hits = match engine.search_relevant_chunks(
            question,
            question_vector,
            similarities,
            context_size,
        ) {
            Ok(hits) => hits,
            Err(e) => { return Err(e); },
        };
        take_local(&mut context, &mut sources, &hits);
        if expand && sources.len() < context_size / 2 {
            let missing = context_size - sources.len();
            let wide: usize = if missing <= usize::MAX / 2 {
                2 * missing
            } else {
                usize::MAX
            };
            let wider: usize = if wide <= usize::MAX / 2 {
                2 * wide
            } else {
                usize::MAX
            };
            match engine.index().search_similar(question_vector, similarities, wider) {
                Ok(found) => {
                    let more = keep_relevant(&found, EXPANSION_FLOOR + 1, wide);
                    let added = expand_context(&more);
                    crate::text::extend(&mut context, &added);
                },
                Err(_) => {},
            }
        }
    }
    Ok((string_of(&context), sources))
}

/// What the remote store returned, as views.
pub open spec fn remote_view(remote: Option<&Vec<VectorMatch>>) -> Option<Seq<MatchView>> {
    match remote {
        Some(matches) => Some(match_views(matches@)),
        None => None,
    }
}

/// A source is taken only where its document is new: the documents of the
/// sources stay distinct.
pub open spec fn distinct_paths(sources: Seq<SourceView>) -> bool {
    forall|i: int, j: int|
        0 <= i < j < sources.len() ==> (#[trigger] sources[i]).document_path != (
        #[trigger] sources[j]).document_path
}

/// Merging keeps the document paths distinct and the sources that were
/// there, in their places; and the document of every candidate is among
/// the sources afterwards.
pub proof fn lemma_merge_all_distinct(state: Gathered, candidates: Seq<SourceView>)
    requires
        distinct_paths(state.sources),
    ensures
        distinct_paths(merge_all(state, candidates).sources),
        state.sources.len() <= merge_all(state, candidates).sources.len(),
        forall|i: int|
            0 <= i < state.sources.len() ==> merge_all(state, candidates).sources[i]
                == #[trigger] state.sources[i],
        forall|k: int|
            0 <= k < candidates.len() ==> has_path(
                merge_all(state, candidates).sources,
                (#[trigger] candidates[k]).document_path,
            ),
    decreases candidates.len(),
{
    if candidates.len() > 0 {
        let front = candidates.drop_last();
        lemma_merge_all_distinct(state, front);
        let mid = merge_all(state, front);
        let c = candidates.last();
        let out = merge_one(mid, c);
        if !has_path(mid.sources, c.document_path) {
            assert forall|i: int, j: int| 0 <= i < j < out.sources.len() implies (
            #[trigger] out.sources[i]).document_path != (#[trigger] out.sources[j]).document_path by {
                if j < mid.sources.len() {
                    assert(mid.sources[i].document_path != mid.sources[j].document_path);
                } else {
                    assert(mid.sources[i].document_path != c.document_path);
                }
            }
            assert(out.sources[mid.sources.len() as int] == c);
        }
        assert forall|k: int| 0 <= k < candidates.len() implies has_path(
            out.sources,
            (#[trigger] candidates[k]).document_path,
        ) by {
            if k < front.len() {
                assert(front[k] == candidates[k]);
                let w = choose|w: int|
                    0 <= w < mid.sources.len() && (#[trigger] mid.sources[w]).document_path
                        == front[k].document_path;
                assert(out.sources[w] == mid.sources[w]);
            } else {
                if has_path(mid.sources, c.document_path) {
                } else {
                    assert(out.sources[mid.sources.len() as int].document_path
                        == c.document_path);
                }
            }
        }
    }
}

/// No two sources that retrieval returns come from the same document, so a
/// chunk that both the remote store and the local index return is a source
/// once; and the document of every remote candidate, and of every local one
/// where the index is searched, is among the sources.
pub proof fn lemma_retrieved_deduplicated(
    entries: Seq<EntryView>,
    similarities: Seq<u32>,
    threshold: u32,
    remote: Option<Seq<MatchView>>,
    context_size: usize,
    expand: bool,
)
    ensures
        distinct_paths(retrieved(entries, similarities, threshold, remote, context_size, expand).sources),
        remote is Some ==> forall|k: int|
            0 <= k < remote_candidates(remote->0).len() ==> has_path(
                retrieved(entries, similarities, threshold, remote, context_size, expand).sources,
                (#[trigger] remote_candidates(remote->0)[k]).document_path,
            ),
        searches_locally(remote, context_size) ==> forall|k: int|
            0 <= k < local_candidates(
                relevant_hits(entries, similarities, threshold, context_size),
            ).len() ==> has_path(
                retrieved(entries, similarities, threshold, remote, context_size, expand).sources,
                (#[trigger] local_candidates(
                    relevant_hits(entries, similarities, threshold, context_size),
                )[k]).document_path,
            ),
{
    let first = from_remote(remote);
    let local = local_candidates(relevant_hits(entries, similarities, threshold, context_size));
    let all = retrieved(entries, similarities, threshold, remote, context_size, expand).sources;
    match remote {
        Some(matches) => {
            lemma_merge_all_distinct(nothing(), remote_candidates(matches));
        },
        None => {},
    }
    lemma_merge_all_distinct(first, local);
    if remote is Some {
        let candidates = remote_candidates(remote->0);
        assert forall|k: int| 0 <= k < candidates.len() implies has_path(
            all,
            (#[trigger] candidates[k]).document_path,
        ) by {
            let i = choose|i: int|
                0 <= i < first.sources.len() && (#[trigger] first.sources[i]).document_path
                    == candidates[k].document_path;
            assert(all[i] == first.sources[i]);
        }
    }
}

} // verus!
