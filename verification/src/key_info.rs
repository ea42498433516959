//! The key information that a context text holds for a question.
//!
//! The chunks of the context that are relevant to the question are ranked, the
//! three best are grouped by their source document, and each group is shown
//! as a numbered list of summaries.

use vstd::prelude::*;
use crate::number::{decimal, push_decimal};
use crate::ranking::{lemma_ranking, positions, ranking, top_ranked};
use crate::reading::{draft_views, drafts_of, read_drafts, Draft, DraftBuf};
use crate::scoring::{key_words, long_words, relevance, score_words};
use crate::split::words;
use crate::summary::{summarize, summarized};
use crate::text::{chars_of, extend, lowercase, lowercase_of, push_str, same, string_of, views};

verus! {

/// How many chunks are shown.
pub const SHOWN_CHUNKS: usize = 3;

/// What is said where no chunk is relevant.
pub open spec fn no_information() -> Seq<char> {
    "No relevant information found in the indexed documents."@
}

/// What the key information starts with.
pub open spec fn found_header() -> Seq<char> {
    "Based on the indexed documents, here's what I found:\n\n"@
}

/// A chunk is relevant to a question where its relevance is more than a
/// twentieth.
pub open spec fn is_relevant(draft: Draft, question: Seq<char>) -> bool {
    relevance(draft.content, question).exceeds(1, 20)
}

/// The relevant chunks, in order.
pub open spec fn relevant_drafts(drafts: Seq<Draft>, question: Seq<char>) -> Seq<Draft>
    decreases drafts.len(),
{
    if drafts.len() == 0 {
        seq![]
    } else if is_relevant(drafts.last(), question) {
        relevant_drafts(drafts.drop_last(), question).push(drafts.last())
    } else {
        relevant_drafts(drafts.drop_last(), question)
    }
}

/// The score by which a chunk is ranked: seven tenths of its relevance and
/// three tenths of its similarity, in units that the chunks for one question
/// share.
pub open spec fn rank_key(draft: Draft, question: Seq<char>) -> u128 {
    (7_000_000 * relevance(draft.content, question).units + 3 * draft.similarity * relevance(
        draft.content,
        question,
    ).scale) as u128
}

/// The keys by which drafts are ranked, one for each draft.
pub open spec fn rank_keys(drafts: Seq<Draft>, question: Seq<char>) -> Seq<u128> {
    Seq::new(drafts.len(), |i: int| rank_key(drafts[i], question))
}

/// The best chunks: the first three by rank, equally ranked ones in the order
/// of the text.
pub open spec fn top_drafts(drafts: Seq<Draft>, question: Seq<char>) -> Seq<Draft> {
    let order = ranking(rank_keys(drafts, question));
    let n = if drafts.len() > SHOWN_CHUNKS {
        SHOWN_CHUNKS as int
    } else {
        drafts.len() as int
    };
    Seq::new(n as nat, |i: int| drafts[order[i]])
}

/// The contents of the chunks of one source document.
pub struct Group {
    pub source: Seq<char>,
    pub contents: Seq<Seq<char>>,
}

/// A group that is being filled.
pub struct GroupBuf {
    pub source: Vec<char>,
    pub contents: Vec<Vec<char>>,
}

impl View for GroupBuf {
    type V = Group;

    open spec fn view(&self) -> Group {
        Group { source: self.source@, contents: views(self.contents@) }
    }
}

/// What each of the groups holds.
pub open spec fn group_views(groups: Seq<GroupBuf>) -> Seq<Group> {
    Seq::new(groups.len(), |i: int| groups[i]@)
}

/// The place of the last group for `source`, or `-1`.
pub open spec fn group_of(groups: Seq<Group>, source: Seq<char>) -> int
    decreases groups.len(),
{
    if groups.len() == 0 {
        -1
    } else if groups.last().source == source {
        groups.len() - 1
    } else {
        group_of(groups.drop_last(), source)
    }
}

proof fn lemma_group_of(groups: Seq<Group>, source: Seq<char>)
    ensures
        -1 <= group_of(groups, source) < groups.len(),
        group_of(groups, source) >= 0 ==> groups[group_of(groups, source)].source == source,
    decreases groups.len(),
{
    if groups.len() > 0 && groups.last().source != source {
        lemma_group_of(groups.drop_last(), source);
    }
}

/// The groups after one more chunk: its content goes to the group of its
/// source, or to a new group at the end.
pub open spec fn add_to_groups(groups: Seq<Group>, draft: Draft) -> Seq<Group> {
    let at = group_of(groups, draft.source);
    if at >= 0 {
        groups.update(
            at,
            Group { source: groups[at].source, contents: groups[at].contents.push(draft.content) },
        )
    } else {
        groups.push(Group { source: draft.source, contents: seq![draft.content] })
    }
}

/// The groups of a list of chunks, in the order in which their sources come
/// up.
pub open spec fn grouped(drafts: Seq<Draft>) -> Seq<Group>
    decreases drafts.len(),
{
    if drafts.len() == 0 {
        seq![]
    } else {
        add_to_groups(grouped(drafts.drop_last()), drafts.last())
    }
}

/// The numbered list of the summaries of `contents`. Each content has its
/// number, counted from one; one whose summary is empty is left out.
pub open spec fn numbered_summaries(contents: Seq<Seq<char>>) -> Seq<char>
    decreases contents.len(),
{
    if contents.len() == 0 {
        seq![]
    } else if summarized(contents.last()).len() > 0 {
        numbered_summaries(contents.drop_last()) + decimal(contents.len()) + ". "@ + summarized(
            contents.last(),
        ) + "\n"@
    } else {
        numbered_summaries(contents.drop_last())
    }
}

/// One group as text.
pub open spec fn rendered_group(group: Group) -> Seq<char> {
    "**From "@ + group.source + ":**\n"@ + numbered_summaries(group.contents) + "\n"@
}

/// The groups as text, one after the other.
pub open spec fn rendered_groups(groups: Seq<Group>) -> Seq<char>
    decreases groups.len(),
{
    if groups.len() == 0 {
        seq![]
    } else {
        rendered_groups(groups.drop_last()) + rendered_group(groups.last())
    }
}

/// Whether a context text holds a chunk that is relevant to the question.
pub open spec fn has_key_information(context: Seq<char>, question: Seq<char>) -> bool {
    relevant_drafts(drafts_of(context), question).len() > 0
}

/// The key information that a context text holds for a question.
pub open spec fn key_information(context: Seq<char>, question: Seq<char>) -> Seq<char> {
    if has_key_information(context, question) {
        found_header() + rendered_groups(
            grouped(top_drafts(relevant_drafts(drafts_of(context), question), question)),
        )
    } else {
        no_information()
    }
}

fn find_group(groups: &Vec<GroupBuf>, source: &Vec<char>) -> (r: Option<usize>)
    ensures
        match r {
            Some(at) => at == group_of(group_views(groups@), source@) && at < groups.len(),
            None => group_of(group_views(groups@), source@) == -1,
        },
{
    let ghost gs = group_views(groups@);
    let mut k: usize = groups.len();
    assert(gs.take(k as int) == gs);
    while k > 0
        invariant
            k <= groups.len(),
            gs == group_views(groups@),
            group_of(gs, source@) == group_of(gs.take(k as int), source@),
        decreases k,
    {
        assert(gs.take(k as int).last() == groups[k - 1]@);
        assert(gs.take(k as int).drop_last() == gs.take(k - 1));
        if same(&groups[k - 1].source, source) {
            return Some(k - 1);
        }
        k -= 1;
    }
    None
}

fn copy_of(v: &Vec<char>) -> (r: Vec<char>)
    ensures
        r@ == v@,
{
    let r = crate::text::slice_of(v, 0, v.len());
    assert(v@.subrange(0, v.len() as int) == v@);
    r
}

fn add_to(groups: &mut Vec<GroupBuf>, draft: &DraftBuf)
    ensures
        group_views(final(groups)@) == add_to_groups(group_views(old(groups)@), draft@),
{
    let ghost before = group_views(groups@);
    match find_group(groups, &draft.source) {
        Some(at) => {
            let ghost old_contents = groups[at as int].contents@;
            let ghost old_source = groups[at as int].source@;
            let mut contents: Vec<Vec<char>> = Vec::new();
            let mut j: usize = 0;
            assert(views(contents@) =~= views(groups[at as int].contents@).take(0));
            while j < groups[at].contents.len()
                invariant
                    at < groups.len(),
                    j <= groups[at as int].contents.len(),
                    views(contents@) == views(groups[at as int].contents@).take(j as int),
                decreases groups[at as int].contents.len() - j,
            {
                let ghost sofar = contents@;
                let c = copy_of(&groups[at].contents[j]);
                contents.push(c);
                proof {
                    crate::text::lemma_views_push(sofar, c);
                    assert(views(groups[at as int].contents@).take(j + 1) =~= views(
                        groups[at as int].contents@,
                    ).take(j as int).push(c@));
                }
                j += 1;
            }
            assert(views(contents@) == views(old_contents)) by {
                assert(views(old_contents).take(old_contents.len() as int) == views(old_contents));
            }
            let ghost sofar = contents@;
            let c = copy_of(&draft.content);
            contents.push(c);
            proof {
                crate::text::lemma_views_push(sofar, c);
            }
            let source = copy_of(&groups[at].source);
            groups.set(at, GroupBuf { source, contents });
            assert(group_views(groups@) =~= before.update(
                at as int,
                Group { source: old_source, contents: views(old_contents).push(draft.content@) },
            ));
        },
        None => {
            let mut contents: Vec<Vec<char>> = Vec::new();
            let c = copy_of(&draft.content);
            contents.push(c);
            assert(views(contents@) =~= seq![draft.content@]);
            groups.push(GroupBuf { source: copy_of(&draft.source), contents });
            assert(group_views(groups@) =~= before.push(
                Group { source: draft.source@, contents: seq![draft.content@] },
            ));
        },
    }
}

fn push_numbered(out: &mut Vec<char>, contents: &Vec<Vec<char>>)
    ensures
        final(out)@ == old(out)@ + numbered_summaries(views(contents@)),
{
    let ghost start = out@;
    let ghost cs = views(contents@);
    let mut i: usize = 0;
    assert(start + numbered_summaries(cs.take(0)) =~= start);
    while i < contents.len()
        invariant
            i <= contents.len(),
            cs == views(contents@),
            out@ == start + numbered_summaries(cs.take(i as int)),
        decreases contents.len() - i,
    {
        proof {
            assert(cs.take(i + 1).drop_last() == cs.take(i as int));
            assert(cs.take(i + 1).last() == contents[i as int]@);
        }
        let shown = summarize(&contents[i]);
        if shown.len() > 0 {
            let ghost before = out@;
            push_decimal(out, i as u128 + 1);
            push_str(out, ". ");
            extend(out, &shown);
            push_str(out, "\n");
            assert(out@ =~= start + (numbered_summaries(cs.take(i as int)) + decimal(
                (i + 1) as nat,
            ) + ". "@ + shown@ + "\n"@));
        }
        i += 1;
    }
    assert(cs.take(contents.len() as int) == cs);
}

fn render_groups(out: &mut Vec<char>, groups: &Vec<GroupBuf>)
    ensures
        final(out)@ == old(out)@ + rendered_groups(group_views(groups@)),
{
    let ghost start = out@;
    let ghost gs = group_views(groups@);
    let mut i: usize = 0;
    assert(start + rendered_groups(gs.take(0)) =~= start);
    while i < groups.len()
        invariant
            i <= groups.len(),
            gs == group_views(groups@),
            out@ == start + rendered_groups(gs.take(i as int)),
        decreases groups.len() - i,
    {
        proof {
            assert(gs.take(i + 1).drop_last() == gs.take(i as int));
            assert(gs.take(i + 1).last() == groups[i as int]@);
        }
        push_str(out, "**From ");
        extend(out, &groups[i].source);
        push_str(out, ":**\n");
        push_numbered(out, &groups[i].contents);
        push_str(out, "\n");
        assert(out@ =~= start + (rendered_groups(gs.take(i as int)) + rendered_group(
            groups[i as int]@,
        )));
        i += 1;
    }
    assert(gs.take(groups.len() as int) == gs);
}

/// The relevant chunks of a context with the scores by which they are ranked.
fn rank_drafts(drafts: Vec<DraftBuf>, question: &Vec<char>, Ghost(asked): Ghost<Seq<char>>) -> (r: (
    Vec<DraftBuf>,
    Vec<u128>,
))
    requires
        question@ == lowercase_of(asked),
    ensures
        draft_views(r.0@) == relevant_drafts(draft_views(drafts@), asked),
        r.1@ == rank_keys(draft_views(r.0@), asked),
{
    let question_words = key_words(question, 2);
    let ghost all = draft_views(drafts@);
    let mut kept: Vec<DraftBuf> = Vec::new();
    let mut keys: Vec<u128> = Vec::new();
    let mut i: usize = 0;
    assert(draft_views(kept@) =~= relevant_drafts(all.take(0), asked));
    assert(keys@ =~= rank_keys(draft_views(kept@), asked));
    while i < drafts.len()
        invariant
            i <= drafts.len(),
            all == draft_views(drafts@),
            question@ == lowercase_of(asked),
            views(question_words@) == long_words(words(question@), 2),
            draft_views(kept@) == relevant_drafts(all.take(i as int), asked),
            keys@ == rank_keys(draft_views(kept@), asked),
        decreases drafts.len() - i,
    {
        proof {
            assert(all.take(i + 1).drop_last() == all.take(i as int));
            assert(all.take(i + 1).last() == drafts[i as int]@);
        }
        let draft = &drafts[i];
        let low = lowercase(&draft.content);
        let score = score_words(&low, question, &question_words, draft.content.len());
        assert(score == relevance(draft.content@, asked));
        assert(score.units * 20 <= 20 * (40 * usize::MAX)) by (nonlinear_arith)
            requires
                score.units <= score.scale <= 40 * usize::MAX,
        ;
        if score.units * 20 > score.scale {
            assert(7_000_000 * score.units <= 7_000_000 * (40 * usize::MAX)) by (nonlinear_arith)
                requires
                    score.units <= 40 * usize::MAX,
            ;
            assert(3 * draft.similarity * score.scale <= 3 * u32::MAX * (40 * usize::MAX))
                by (nonlinear_arith)
                requires
                    draft.similarity <= u32::MAX,
                    0 <= score.scale <= 40 * usize::MAX,
            ;
            let key: u128 = 7_000_000 * score.units + 3 * (draft.similarity as u128) * score.scale;
            let ghost before = draft_views(kept@);
            let ghost before_keys = keys@;
            let copy = DraftBuf {
                content: copy_of(&draft.content),
                source: copy_of(&draft.source),
                similarity: draft.similarity,
            };
            kept.push(copy);
            keys.push(key);
            proof {
                assert(draft_views(kept@) =~= before.push(draft@));
                assert(keys@ =~= rank_keys(draft_views(kept@), asked));
            }
        }
        i += 1;
    }
    assert(all.take(drafts.len() as int) == all);
    (kept, keys)
}

/// The key information that a context text holds for the question whose
/// lowercase form is `question`.
fn key_information_for(context: &Vec<char>, question: &Vec<char>, Ghost(asked): Ghost<Seq<char>>) -> (r:
    (bool, Vec<char>))
    requires
        question@ == lowercase_of(asked),
    ensures
        r.0 == has_key_information(context@, asked),
        r.1@ == key_information(context@, asked),
{
    let drafts = read_drafts(context);
    let (relevant, keys) = rank_drafts(drafts, question, Ghost(asked));
    if relevant.len() == 0 {
        return (false, chars_of("No relevant information found in the indexed documents."));
    }
    let order = top_ranked(&keys, SHOWN_CHUNKS);
    let ghost rel = draft_views(relevant@);
    let ghost top = top_drafts(rel, asked);
    let mut groups: Vec<GroupBuf> = Vec::new();
    let mut i: usize = 0;
    proof {
        lemma_ranking(keys@);
        assert(group_views(groups@) =~= grouped(top.take(0)));
    }
    while i < order.len()
        invariant
            i <= order.len() == top.len(),
            keys@ == rank_keys(rel, asked),
            rel == draft_views(relevant@),
            top == top_drafts(rel, asked),
            positions(order@) == ranking(keys@).take(order.len() as int),
            forall|j: int| 0 <= j < order.len() ==> (#[trigger] order[j]) < keys.len(),
            group_views(groups@) == grouped(top.take(i as int)),
        decreases order.len() - i,
    {
        let at = order[i];
        proof {
            lemma_ranking(keys@);
            assert(positions(order@)[i as int] == at);
            assert(ranking(keys@).take(order.len() as int)[i as int] == ranking(keys@)[i as int]);
            assert(top[i as int] == relevant[at as int]@);
            assert(top.take(i + 1).drop_last() == top.take(i as int));
            assert(top.take(i + 1).last() == top[i as int]);
        }
        add_to(&mut groups, &relevant[at]);
        i += 1;
    }
    assert(top.take(order.len() as int) == top);
    let mut out = chars_of("Based on the indexed documents, here's what I found:\n\n");
    render_groups(&mut out, &groups);
    (true, out)
}

/// The key information that a context text holds for a question.
pub fn extract_key_information(context: &str, question: &str) -> (r: String)
    ensures
        r@ == key_information(context@, question@),
{
    let text = chars_of(context);
    let low = lowercase(&chars_of(question));
    let (_, info) = key_information_for(&text, &low, Ghost(question@));
    string_of(&info)
}

/// Whether a context holds key information for a question, and that
/// information.
pub fn find_key_information(context: &str, question: &str) -> (r: (bool, String))
    ensures
        r.0 == has_key_information(context@, question@),
        r.1@ == key_information(context@, question@),
{
    let text = chars_of(context);
    let low = lowercase(&chars_of(question));
    let (found, info) = key_information_for(&text, &low, Ghost(question@));
    (found, string_of(&info))
}

} // verus!
