//! The decisions around model inference: which inputs are batched
//! together, the token ids fed to the model, and the prompts put in front
//! of each text.

use vstd::prelude::*;
use std::collections::HashMap;
use crate::error::JinaError;
use crate::types::{JinaTask, PromptName, task_uses_prompt_pair};
use crate::text::{chars_of, replace_all, replace_str, string_of};

verus! {

broadcast use vstd::std_specs::hash::group_hash_axioms;

/// The token counts of tokenized inputs.
pub open spec fn token_lens(tokenized: Seq<Vec<u32>>) -> Seq<nat> {
    tokenized.map_values(|ids: Vec<u32>| ids@.len())
}

/// The position of the latest batch whose first input has length `len`.
pub open spec fn last_batch_of(groups: Seq<Seq<nat>>, lens: Seq<nat>, len: nat) -> Option<nat>
    decreases groups.len(),
{
    if groups.len() == 0 {
        None
    } else if lens[groups.last()[0] as int] == len {
        Some((groups.len() - 1) as nat)
    } else {
        last_batch_of(groups.drop_last(), lens, len)
    }
}

/// Batching inputs by token count, in input order: each input joins the
/// latest batch of inputs of its length while that batch holds fewer than
/// `batch` inputs, and opens a new batch otherwise.
pub open spec fn batch_fold(lens: Seq<nat>, batch: nat) -> Seq<Seq<nat>>
    decreases lens.len(),
{
    if lens.len() == 0 {
        Seq::empty()
    } else {
        let groups = batch_fold(lens.drop_last(), batch);
        let i = (lens.len() - 1) as nat;
        match last_batch_of(groups, lens, lens.last()) {
            Some(k) => if groups[k as int].len() < batch {
                groups.update(k as int, groups[k as int].push(i))
            } else {
                groups.push(seq![i])
            },
            None => groups.push(seq![i]),
        }
    }
}

/// A batch size of at least one.
pub open spec fn at_least_one(n: nat) -> nat {
    if n >= 1 {
        n
    } else {
        1
    }
}

/// The views of a sequence of index vectors.
pub open spec fn group_views(gs: Seq<Vec<usize>>) -> Seq<Seq<nat>> {
    gs.map_values(|g: Vec<usize>| g@.map_values(|i: usize| i as nat))
}

proof fn lemma_last_batch_same_firsts(
    gs: Seq<Seq<nat>>,
    hs: Seq<Seq<nat>>,
    lens: Seq<nat>,
    len: nat,
)
    requires
        gs.len() == hs.len(),
        forall|k: int|
            #![trigger gs[k]]
            0 <= k < gs.len() ==> gs[k].len() >= 1 && hs[k].len() >= 1 && gs[k][0] == hs[k][0],
    ensures
        last_batch_of(gs, lens, len) == last_batch_of(hs, lens, len),
    decreases gs.len(),
{
    if gs.len() > 0 {
        assert(gs.last()[0] == hs.last()[0]);
        lemma_last_batch_same_firsts(gs.drop_last(), hs.drop_last(), lens, len);
    }
}

proof fn lemma_last_batch_lens_prefix(gs: Seq<Seq<nat>>, lens: Seq<nat>, lens2: Seq<nat>, len: nat)
    requires
        forall|k: int| #![trigger gs[k]] 0 <= k < gs.len() ==> gs[k].len() >= 1 && gs[k][0] < lens.len(),
        lens.len() <= lens2.len(),
        forall|i: int| 0 <= i < lens.len() ==> lens[i] == lens2[i],
    ensures
        last_batch_of(gs, lens, len) == last_batch_of(gs, lens2, len),
    decreases gs.len(),
{
    if gs.len() > 0 {
        assert(gs.last()[0] < lens.len());
        lemma_last_batch_lens_prefix(gs.drop_last(), lens, lens2, len);
    }
}

proof fn lemma_last_batch_found(gs: Seq<Seq<nat>>, lens: Seq<nat>, len: nat)
    requires
        forall|k: int| #![trigger gs[k]] 0 <= k < gs.len() ==> gs[k].len() >= 1,
    ensures
        last_batch_of(gs, lens, len) matches Some(k) ==> k < gs.len() && lens[gs[k as int][0] as int]
            == len,
    decreases gs.len(),
{
    if gs.len() > 0 {
        lemma_last_batch_found(gs.drop_last(), lens, len);
    }
}

/// The batches of inputs of equal token count, at most `batch_size` (and
/// at least one) inputs each, in order of their first input.
pub fn same_len_groups(tokenized: &Vec<Vec<u32>>, batch_size: usize) -> (groups: Vec<Vec<usize>>)
    ensures
        group_views(groups@) == batch_fold(token_lens(tokenized@), at_least_one(batch_size as nat)),
{
    let batch: usize = if batch_size >= 1 { batch_size } else { 1 };
    let ghost lens = token_lens(tokenized@);
    let mut groups: Vec<Vec<usize>> = Vec::new();
    let mut latest: HashMap<usize, usize> = HashMap::new();
    let mut i: usize = 0;
    while i < tokenized.len()
        invariant
            i <= tokenized.len(),
            lens == token_lens(tokenized@),
            batch as nat == at_least_one(batch_size as nat),
            group_views(groups@) == batch_fold(lens.take(i as int), batch as nat),
            forall|k: int| 0 <= k < groups.len() ==> #[trigger] groups@[k].len() >= 1,
            forall|k: int| 0 <= k < groups.len() ==> #[trigger] groups@[k]@[0] < i,
            forall|len: usize| #[trigger] latest@.contains_key(len) <==> last_batch_of(
                group_views(groups@),
                lens.take(i as int),
                len as nat,
            ) is Some,
            forall|len: usize| #[trigger] latest@.contains_key(len) ==> last_batch_of(
                group_views(groups@),
                lens.take(i as int),
                len as nat,
            ) == Some(latest@[len] as nat),
        decreases tokenized.len() - i,
    {
        let len = tokenized[i].len();
        let ghost gv = group_views(groups@);
        let ghost pre = lens.take(i as int);
        let ghost cur = lens.take(i as int + 1);
        proof {
            assert(cur.drop_last() == pre);
            assert(cur.last() == len as nat);
            assert forall|k: int| #![trigger gv[k]] 0 <= k < gv.len() implies gv[k].len() >= 1 && gv[k][0]
                < pre.len() by {
                assert(gv[k] == groups@[k]@.map_values(|x: usize| x as nat));
                assert(groups@[k].len() >= 1);
                assert(groups@[k]@[0] < i);
                assert(gv[k][0] == groups@[k]@[0] as nat);
            }
            lemma_last_batch_lens_prefix(gv, pre, cur, len as nat);
            lemma_last_batch_found(gv, pre, len as nat);
        }
        let found = match latest.get(&len) {
            Some(k) => *k,
            None => groups.len(),
        };
        if found < groups.len() && groups[found].len() < batch {
            let ghost old_groups = groups@;
            let mut g = groups.remove(found);
            g.push(i);
            let ghost gg = g;
            groups.insert(found, g);
            proof {
                assert(gg@ == old_groups[found as int]@.push(i));
                assert(groups@ =~= old_groups.update(found as int, gg));
                assert(gg@.map_values(|x: usize| x as nat) =~= gv[found as int].push(i as nat));
                assert(group_views(groups@) =~= gv.update(found as int, gv[found as int].push(i as nat)));
                lemma_last_batch_same_firsts(gv, group_views(groups@), cur, len as nat);
                assert forall|l: usize| #[trigger] latest@.contains_key(l) <==> last_batch_of(
                    group_views(groups@),
                    cur,
                    l as nat,
                ) is Some by {
                    lemma_last_batch_lens_prefix(gv, pre, cur, l as nat);
                    lemma_last_batch_same_firsts(gv, group_views(groups@), cur, l as nat);
                }
                assert forall|l: usize| #[trigger] latest@.contains_key(l) implies last_batch_of(
                    group_views(groups@),
                    cur,
                    l as nat,
                ) == Some(latest@[l] as nat) by {
                    lemma_last_batch_lens_prefix(gv, pre, cur, l as nat);
                    lemma_last_batch_same_firsts(gv, group_views(groups@), cur, l as nat);
                }
            }
        } else {
            let ghost old_groups = groups@;
            let mut g: Vec<usize> = Vec::new();
            g.push(i);
            let pos = groups.len();
            let ghost gg = g;
            groups.push(g);
            latest.insert(len, pos);
            proof {
                assert(gg@.map_values(|x: usize| x as nat) =~= seq![i as nat]);
                assert(group_views(groups@) =~= gv.push(seq![i as nat]));
                assert(group_views(groups@).last()[0] == i as nat);
                assert forall|l: usize| #[trigger] latest@.contains_key(l) <==> last_batch_of(
                    group_views(groups@),
                    cur,
                    l as nat,
                ) is Some by {
                    lemma_last_batch_lens_prefix(gv, pre, cur, l as nat);
                    assert(group_views(groups@).drop_last() == gv);
                }
                assert forall|l: usize| #[trigger] latest@.contains_key(l) implies last_batch_of(
                    group_views(groups@),
                    cur,
                    l as nat,
                ) == Some(latest@[l] as nat) by {
                    lemma_last_batch_lens_prefix(gv, pre, cur, l as nat);
                    assert(group_views(groups@).drop_last() == gv);
                }
            }
        }
        i = i + 1;
    }
    proof {
        assert(lens.take(tokenized.len() as int) == lens);
    }
    groups
}


/// The token ids of the inputs of a batch, one input after the other.
pub open spec fn flattened(tokenized: Seq<Vec<u32>>, group: Seq<usize>) -> Seq<u32> {
    group.map_values(|i: usize| tokenized[i as int]@).flatten()
}

/// The token ids of the inputs of `group`, concatenated in order. The
/// group is not empty and names inputs that exist.
pub fn flatten_group(tokenized: &Vec<Vec<u32>>, group: &Vec<usize>) -> (ids: Vec<u32>)
    requires
        group.len() > 0,
        forall|k: int| 0 <= k < group.len() ==> #[trigger] group@[k] < tokenized.len(),
    ensures
        ids@ == flattened(tokenized@, group@),
{
    let mut ids: Vec<u32> = Vec::new();
    let mut k: usize = 0;
    while k < group.len()
        invariant
            k <= group.len(),
            forall|j: int| 0 <= j < group.len() ==> #[trigger] group@[j] < tokenized.len(),
            ids@ == flattened(tokenized@, group@.take(k as int)),
        decreases group.len() - k,
    {
        let src = &tokenized[group[k]];
        let ghost before = ids@;
        let mut j: usize = 0;
        while j < src.len()
            invariant
                j <= src.len(),
                ids@ == before + src@.take(j as int),
            decreases src.len() - j,
        {
            ids.push(src[j]);
            j = j + 1;
            assert(ids@ == before + src@.take(j as int));
        }
        proof {
            assert(src@.take(src.len() as int) == src@);
            let m = group@.take(k as int).map_values(|i: usize| tokenized@[i as int]@);
            let m2 = group@.take(k as int + 1).map_values(|i: usize| tokenized@[i as int]@);
            assert(m2 =~= m.push(src@));
            m.lemma_flatten_push(src@);
        }
        k = k + 1;
    }
    proof {
        assert(group@.take(group.len() as int) == group@);
    }
    ids
}

/// The token ids of one input as the model takes them: at most `max_len`
/// of them.
pub open spec fn clipped(ids: Seq<u32>, max_len: nat) -> Seq<u32> {
    if ids.len() > max_len {
        ids.take(max_len as int)
    } else {
        ids
    }
}

/// Keeps at most `max_len` token ids of each input; fails when an input is
/// left with none.
pub fn clip_token_ids(encodings: Vec<Vec<u32>>, max_len: usize) -> (r: Result<Vec<Vec<u32>>, JinaError>)
    ensures
        r is Ok <==> forall|i: int| 0 <= i < encodings.len() ==> clipped(
            #[trigger] encodings@[i]@,
            max_len as nat,
        ).len() > 0,
        r matches Ok(out) ==> out.len() == encodings.len() && forall|i: int|
            0 <= i < encodings.len() ==> #[trigger] out@[i]@ == clipped(encodings@[i]@, max_len as nat),
        r matches Err(e) ==> e == JinaError::EmptyTokens,
{
    let mut out: Vec<Vec<u32>> = Vec::new();
    let mut i: usize = 0;
    while i < encodings.len()
        invariant
            i <= encodings.len(),
            out.len() == i,
            forall|k: int| 0 <= k < i ==> #[trigger] out@[k]@ == clipped(encodings@[k]@, max_len as nat),
            forall|k: int| 0 <= k < i ==> clipped(#[trigger] encodings@[k]@, max_len as nat).len() > 0,
        decreases encodings.len() - i,
    {
        let mut ids = encodings[i].clone();
        if ids.len() > max_len {
            ids.truncate(max_len);
        }
        if ids.len() == 0 {
            assert(clipped(encodings@[i as int]@, max_len as nat).len() == 0);
            return Err(JinaError::EmptyTokens);
        }
        out.push(ids);
        i = i + 1;
    }
    Ok(out)
}

/// Whether a code-model text is embedded as a query (rather than as a
/// passage): queries, and texts with no prompt named.
pub open spec fn code_as_query(prompt_name: Option<PromptName>) -> bool {
    prompt_name is None || prompt_name == Some(PromptName::Query)
}

/// The prompt type a code model gives a text: `"query"` or `"passage"`.
pub fn code_prompt_type(prompt_name: Option<PromptName>) -> (r: &'static str)
    ensures
        r@ == (if code_as_query(prompt_name) {
            "query"@
        } else {
            "passage"@
        }),
{
    match prompt_name {
        None | Some(PromptName::Query) => "query",
        Some(PromptName::Document) | Some(PromptName::Passage) => "passage",
    }
}

/// The instruction a code model puts before a text for a task, on the query
/// side or on the candidate side; none for text tasks.
pub open spec fn code_prefix(task: JinaTask, query: bool) -> Seq<char> {
    match task {
        JinaTask::Nl2Code => if query {
            "Find the most relevant code snippet given the following query:\n"@
        } else {
            "Candidate code snippet:\n"@
        },
        JinaTask::Qa => if query {
            "Find the most relevant answer given the following question:\n"@
        } else {
            "Candidate answer:\n"@
        },
        JinaTask::Code2Code => if query {
            "Find an equivalent code snippet given the following code snippet:\n"@
        } else {
            "Candidate code snippet:\n"@
        },
        JinaTask::Code2Nl => if query {
            "Find the most relevant comment given the following code snippet:\n"@
        } else {
            "Candidate comment:\n"@
        },
        JinaTask::Code2Completion => if query {
            "Find the most relevant completion given the following start of code snippet:\n"@
        } else {
            "Candidate completion:\n"@
        },
        _ => ""@,
    }
}

fn code_prefix_str(task: &JinaTask, query: bool) -> (r: &'static str)
    ensures
        r@ == code_prefix(*task, query),
{
    match task {
        JinaTask::Nl2Code => if query {
            "Find the most relevant code snippet given the following query:\n"
        } else {
            "Candidate code snippet:\n"
        },
        JinaTask::Qa => if query {
            "Find the most relevant answer given the following question:\n"
        } else {
            "Candidate answer:\n"
        },
        JinaTask::Code2Code => if query {
            "Find an equivalent code snippet given the following code snippet:\n"
        } else {
            "Candidate code snippet:\n"
        },
        JinaTask::Code2Nl => if query {
            "Find the most relevant comment given the following code snippet:\n"
        } else {
            "Candidate comment:\n"
        },
        JinaTask::Code2Completion => if query {
            "Find the most relevant completion given the following start of code snippet:\n"
        } else {
            "Candidate completion:\n"
        },
        _ => "",
    }
}

/// `text` with the code-model instruction for `task` in front; the query
/// instruction when `prompt_type` is `"query"`, the candidate one otherwise.
pub fn code_prefixed_text(task: &JinaTask, prompt_type: &str, text: &str) -> (r: String)
    ensures
        r@ == code_prefix(*task, prompt_type@ == "query"@) + text@,
{
    let query = crate::text::str_eq(prompt_type, "query");
    let mut r = code_prefix_str(task, query).to_owned();
    r.append(text);
    r
}

/// The prompt a v5 text model puts before a text: `"Query: "` or
/// `"Document: "` for retrieval, `"Document: "` for the other text tasks,
/// none for code tasks.
pub open spec fn text_prompt(task: JinaTask, prompt_name: Option<PromptName>) -> Seq<char> {
    match task {
        JinaTask::Retrieval => if code_as_query(prompt_name) {
            "Query: "@
        } else {
            "Document: "@
        },
        JinaTask::Classification | JinaTask::TextMatching | JinaTask::Clustering => "Document: "@,
        _ => ""@,
    }
}

/// The prompt a v5 text model puts before a text.
pub fn v5_text_prompt(task: &JinaTask, prompt_name: Option<PromptName>) -> (r: &'static str)
    ensures
        r@ == text_prompt(*task, prompt_name),
{
    match task {
        JinaTask::Retrieval => match prompt_name {
            None | Some(PromptName::Query) => "Query: ",
            _ => "Document: ",
        },
        JinaTask::Classification | JinaTask::TextMatching | JinaTask::Clustering => "Document: ",
        _ => "",
    }
}

/// A v5 text model tells the two sides of retrieval apart: a text with no
/// prompt name or the query name gets `"Query: "`, one named document or
/// passage gets `"Document: "`, and the two differ; the other text tasks put
/// `"Document: "` before every text whatever its side, and the code tasks
/// put nothing.
pub proof fn lemma_text_prompt_sides(task: JinaTask, p: Option<PromptName>)
    ensures
        task == JinaTask::Retrieval ==> (text_prompt(task, p) == "Query: "@ <==> (p is None || p
            == Some(PromptName::Query))),
        task == JinaTask::Retrieval ==> (text_prompt(task, p) == "Document: "@ <==> (p == Some(
            PromptName::Document,
        ) || p == Some(PromptName::Passage))),
        text_prompt(JinaTask::Retrieval, Some(PromptName::Query)) != text_prompt(
            JinaTask::Retrieval,
            Some(PromptName::Document),
        ),
        task == JinaTask::Classification || task == JinaTask::TextMatching || task
            == JinaTask::Clustering ==> text_prompt(task, p) == "Document: "@,
        !task_uses_prompt_pair(task) ==> text_prompt(task, p) == text_prompt(task, None),
        task != JinaTask::Retrieval && task_uses_prompt_pair(task) ==> text_prompt(task, p) == ""@,
{
    reveal_strlit("Query: ");
    reveal_strlit("Document: ");
    assert("Query: "@.len() != "Document: "@.len());
    assert("Query: "@ != "Document: "@);
    match p {
        None => {},
        Some(PromptName::Query) => {},
        Some(PromptName::Document) => {},
        Some(PromptName::Passage) => {},
    }
}

/// A code model embeds a text as a query exactly when it has no prompt name
/// or the query name; for every code task the query instruction asks to
/// "Find" something and the candidate instruction names a "Candidate", both
/// ending in a newline (so they differ), while the text tasks get no
/// instruction on either side.
pub proof fn lemma_code_prompt_sides(task: JinaTask, p: Option<PromptName>, query: bool)
    ensures
        code_as_query(p) <==> (p is None || p == Some(PromptName::Query)),
        task_uses_prompt_pair(task) && task != JinaTask::Retrieval ==> code_prefix(task, true)
            != code_prefix(task, false) && code_prefix(task, query).len() > 0,
        task_uses_prompt_pair(task) && task != JinaTask::Retrieval ==> code_prefix(task, true).len()
            > 5 && code_prefix(task, true).take(5) == "Find "@ && code_prefix(task, true).last() == '\n',
        task_uses_prompt_pair(task) && task != JinaTask::Retrieval ==> code_prefix(task, false).len()
            > 10 && code_prefix(task, false).take(10) == "Candidate "@ && code_prefix(task, false).last()
            == '\n',
        !(task_uses_prompt_pair(task) && task != JinaTask::Retrieval) ==> code_prefix(task, query)
            == ""@,
{
    reveal_strlit("Find the most relevant code snippet given the following query:\n");
    reveal_strlit("Candidate code snippet:\n");
    reveal_strlit("Find the most relevant answer given the following question:\n");
    reveal_strlit("Candidate answer:\n");
    reveal_strlit("Find an equivalent code snippet given the following code snippet:\n");
    reveal_strlit("Find the most relevant comment given the following code snippet:\n");
    reveal_strlit("Candidate comment:\n");
    reveal_strlit("Find the most relevant completion given the following start of code snippet:\n");
    reveal_strlit("Candidate completion:\n");
    reveal_strlit("");
    reveal_strlit("Find ");
    reveal_strlit("Candidate ");
    match task {
        JinaTask::Nl2Code => {
            assert(code_prefix(task, true).len() != code_prefix(task, false).len());
        },
        JinaTask::Qa => {
            assert(code_prefix(task, true).len() != code_prefix(task, false).len());
        },
        JinaTask::Code2Code => {
            assert(code_prefix(task, true).len() != code_prefix(task, false).len());
        },
        JinaTask::Code2Nl => {
            assert(code_prefix(task, true).len() != code_prefix(task, false).len());
        },
        JinaTask::Code2Completion => {
            assert(code_prefix(task, true).len() != code_prefix(task, false).len());
        },
        _ => {},
    }
}

/// Whether every input has its embedding.
pub open spec fn all_present<T>(out: Seq<Option<T>>) -> bool {
    forall|i: int| 0 <= i < out.len() ==> #[trigger] out[i] is Some
}

/// The position of the first input without an embedding.
pub open spec fn first_missing<T>(out: Seq<Option<T>>) -> int
    decreases out.len(),
{
    if out.len() == 0 {
        0
    } else if !all_present(out.drop_last()) {
        first_missing(out.drop_last())
    } else {
        (out.len() - 1) as int
    }
}

/// The embeddings in input order; an error naming the first input that has
/// none, if any.
pub fn collect_ordered_embeddings<T>(out: Vec<Option<T>>) -> (r: Result<Vec<T>, JinaError>)
    ensures
        r is Ok <==> all_present(out@),
        r matches Ok(v) ==> v.len() == out.len() && forall|i: int|
            0 <= i < out.len() ==> Some(#[trigger] v@[i]) == out@[i],
        r matches Err(e) ==> e == (JinaError::MissingEmbedding { index: first_missing(out@) as usize }),
{
    let ghost orig = out@;
    let mut v: Vec<T> = Vec::new();
    for item in it: out.into_iter()
        invariant
            it.seq() == orig,
            v.len() == it.index(),
            forall|k: int| 0 <= k < v.len() ==> Some(#[trigger] v@[k]) == orig[k],
            all_present(orig.take(v.len() as int)),
    {
        let i = v.len();
        match item {
            Some(x) => {
                v.push(x);
                proof {
                    assert forall|k: int| 0 <= k < i + 1 implies #[trigger] orig.take(i + 1)[k] is Some by {
                        if k < i {
                            assert(orig.take(i as int)[k] == orig[k]);
                        }
                    }
                }
            },
            None => {
                proof {
                    lemma_first_missing(orig, i as int);
                }
                return Err(JinaError::MissingEmbedding { index: i });
            },
        }
    }
    proof {
        assert(orig.take(v.len() as int) =~= orig);
    }
    Ok(v)
}

proof fn lemma_first_missing<T>(out: Seq<Option<T>>, i: int)
    requires
        0 <= i < out.len(),
        out[i] is None,
        all_present(out.take(i)),
    ensures
        first_missing(out) == i,
        !all_present(out),
    decreases out.len(),
{
    assert(!all_present(out));
    if i < out.len() - 1 {
        assert(out.drop_last().take(i) == out.take(i));
        assert(out.drop_last()[i] is None);
        lemma_first_missing(out.drop_last(), i);
    } else {
        assert(out.drop_last() == out.take(i));
    }
}


/// The batches are a partition of the inputs `0..n` into non-empty
/// batches of at most `batch` inputs of one length, each in input order,
/// the batches ordered by their first input.
pub open spec fn batches_ok(groups: Seq<Seq<nat>>, lens: Seq<nat>, batch: nat, n: nat) -> bool {
    &&& forall|k: int| #![trigger groups[k]] 0 <= k < groups.len() ==> 1 <= groups[k].len() <= batch
    &&& forall|k: int, j: int|
        #![trigger groups[k][j]]
        0 <= k < groups.len() && 0 <= j < groups[k].len() ==> groups[k][j] < n && lens[groups[k][j] as int]
            == lens[groups[k][0] as int]
    &&& forall|k: int, j1: int, j2: int|
        #![trigger groups[k][j1], groups[k][j2]]
        0 <= k < groups.len() && 0 <= j1 < j2 < groups[k].len() ==> groups[k][j1] < groups[k][j2]
    &&& forall|k1: int, k2: int|
        #![trigger groups[k1], groups[k2]]
        0 <= k1 < k2 < groups.len() ==> groups[k1][0] < groups[k2][0]
    &&& forall|k1: int, j1: int, k2: int, j2: int|
        #![trigger groups[k1][j1], groups[k2][j2]]
        0 <= k1 < groups.len() && 0 <= j1 < groups[k1].len() && 0 <= k2 < groups.len() && 0 <= j2
            < groups[k2].len() && groups[k1][j1] == groups[k2][j2] ==> k1 == k2 && j1 == j2
    &&& forall|i: nat| i < n ==> #[trigger] batched(groups, i)
}

/// Some batch holds input `i`.
pub open spec fn batched(groups: Seq<Seq<nat>>, i: nat) -> bool {
    exists|k: int, j: int| 0 <= k < groups.len() && 0 <= j < groups[k].len() && #[trigger] groups[k][j] == i
}

proof fn lemma_last_batch_prefix(gs: Seq<Seq<nat>>, lens: Seq<nat>, len: nat)
    requires
        forall|k: int| #![trigger gs[k]] 0 <= k < gs.len() ==> gs[k].len() >= 1 && gs[k][0] < lens.len() - 1,
        lens.len() >= 1,
    ensures
        last_batch_of(gs, lens, len) == last_batch_of(gs, lens.drop_last(), len),
{
    lemma_last_batch_lens_prefix(gs, lens.drop_last(), lens, len);
}

/// Batching is a partition: every input lands in exactly one batch, each
/// batch holds between one and `batch` inputs of the same token count in
/// input order, and batches come in order of their first input.
pub proof fn lemma_batches_partition(lens: Seq<nat>, batch: nat)
    requires
        batch >= 1,
    ensures
        batches_ok(batch_fold(lens, batch), lens, batch, lens.len()),
    decreases lens.len(),
{
    if lens.len() > 0 {
        let pre = lens.drop_last();
        lemma_batches_partition(pre, batch);
        let gs = batch_fold(pre, batch);
        let n = lens.len();
        let i = (n - 1) as nat;
        let l = lens.last();
        assert forall|k: int| #![trigger gs[k]] 0 <= k < gs.len() implies gs[k].len() >= 1 && gs[k][0]
            < lens.len() - 1 by {
            assert(gs[k][0] < pre.len());
        }
        lemma_last_batch_prefix(gs, lens, l);
        lemma_last_batch_found(gs, lens, l);
        let r = batch_fold(lens, batch);
        assert forall|k: int, j: int|
            #![trigger gs[k][j]]
            0 <= k < gs.len() && 0 <= j < gs[k].len() implies lens[gs[k][j] as int] == pre[gs[k][j] as int]
            && lens[gs[k][0] as int] == pre[gs[k][0] as int] by {
            assert(gs[k][j] < pre.len());
        }
        match last_batch_of(gs, lens, l) {
            Some(k) => {
                if gs[k as int].len() < batch {
                    let g2 = gs[k as int].push(i);
                    assert(r == gs.update(k as int, g2));
                    assert forall|i2: nat| i2 < n implies #[trigger] batched(r, i2) by {
                        if i2 == i {
                            assert(r[k as int][g2.len() - 1] == i);
                        } else {
                            assert(batched(gs, i2));
                            let (k3, j3) = choose|k3: int, j3: int|
                                0 <= k3 < gs.len() && 0 <= j3 < gs[k3].len() && #[trigger] gs[k3][j3]
                                    == i2;
                            assert(r[k3][j3] == i2);
                        }
                    }
                } else {
                    assert(r == gs.push(seq![i]));
                    assert forall|i2: nat| i2 < n implies #[trigger] batched(r, i2) by {
                        if i2 == i {
                            assert(r[gs.len() as int][0] == i);
                        } else {
                            assert(batched(gs, i2));
                            let (k3, j3) = choose|k3: int, j3: int|
                                0 <= k3 < gs.len() && 0 <= j3 < gs[k3].len() && #[trigger] gs[k3][j3]
                                    == i2;
                            assert(r[k3][j3] == i2);
                        }
                    }
                }
            },
            None => {
                assert(r == gs.push(seq![i]));
                assert forall|i2: nat| i2 < n implies #[trigger] batched(r, i2) by {
                    if i2 == i {
                        assert(r[gs.len() as int][0] == i);
                    } else {
                        assert(batched(gs, i2));
                        let (k3, j3) = choose|k3: int, j3: int|
                            0 <= k3 < gs.len() && 0 <= j3 < gs[k3].len() && #[trigger] gs[k3][j3] == i2;
                        assert(r[k3][j3] == i2);
                    }
                }
            },
        }
    }
}

/// A base-model tensor name without its leading `model.` (if any).
pub open spec fn without_model_prefix(name: Seq<char>) -> Seq<char> {
    if name.len() >= 6 && name.take(6) == "model."@ {
        name.skip(6)
    } else {
        name
    }
}

/// The names of the two low-rank factors that an adapter holds for a
/// base-model weight: `base_model.model.` and the name without its leading
/// `model.`, with each `.weight` turned into `.lora_A.weight` and
/// `.lora_B.weight`.
pub open spec fn lora_names(name: Seq<char>) -> (Seq<char>, Seq<char>) {
    let prefix = "base_model.model."@ + without_model_prefix(name);
    (
        replace_all(prefix, ".weight"@, ".lora_A.weight"@),
        replace_all(prefix, ".weight"@, ".lora_B.weight"@),
    )
}

/// The adapter's names for the low-rank factors of the weight `name`.
pub fn lora_keys(name: &str) -> (r: (String, String))
    ensures
        (r.0@, r.1@) == lora_names(name@),
{
    proof {
        reveal_strlit("model.");
        reveal_strlit(".weight");
    }
    let v = chars_of(name);
    let m = chars_of("model.");
    let mut stripped_start: usize = 0;
    if v.len() >= 6 {
        let mut same = true;
        let mut k: usize = 0;
        while k < 6
            invariant
                k <= 6,
                v.len() >= 6,
                m@ == "model."@,
                m@.len() == 6,
                same == (forall|j: int| 0 <= j < k ==> v@[j] == m@[j]),
            decreases 6 - k,
        {
            if v[k] != m[k] {
                same = false;
            }
            k = k + 1;
        }
        if same {
            assert(v@.take(6) =~= "model."@);
            stripped_start = 6;
        } else {
            assert(v@.take(6) != "model."@) by {
                let j = choose|j: int| 0 <= j < 6 && v@[j] != m@[j];
                assert(v@.take(6)[j] != "model."@[j]);
            }
        }
    }
    let mut prefix = "base_model.model.".to_owned();
    let rest = string_of(&crate::text::slice_chars(&v, stripped_start, v.len()));
    prefix.append(rest.as_str());
    assert(v@.subrange(stripped_start as int, v.len() as int) =~= without_model_prefix(name@));
    let a = replace_str(prefix.as_str(), ".weight", ".lora_A.weight");
    let b = replace_str(prefix.as_str(), ".weight", ".lora_B.weight");
    (a, b)
}

} // verus!
