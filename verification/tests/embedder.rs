use jgrep::embedder::{
    clip_token_ids, code_prefixed_text, code_prompt_type, collect_ordered_embeddings, flatten_group, lora_keys, same_len_groups,
    v5_text_prompt,
};
use jgrep::error::JinaError;
use jgrep::text::replace_str;
use jgrep::types::{JinaTask, PromptName};

#[test]
fn groups_batch_equal_lengths_in_first_input_order() {
    let tokenized: Vec<Vec<u32>> = vec![vec![1, 2], vec![3], vec![4, 5], vec![6, 7], vec![8]];
    let groups = same_len_groups(&tokenized, 2);
    assert_eq!(groups, vec![vec![0, 2], vec![1, 4], vec![3]]);
    assert_eq!(same_len_groups(&tokenized, 0), vec![vec![0], vec![1], vec![2], vec![3], vec![4]]);
    assert!(same_len_groups(&Vec::new(), 4).is_empty());
}

#[test]
fn groups_partition_the_inputs() {
    let tokenized: Vec<Vec<u32>> = (0..23u32).map(|i| vec![i; (i % 4 + 1) as usize]).collect();
    for batch in 1..6 {
        let groups = same_len_groups(&tokenized, batch);
        let mut seen: Vec<usize> = groups.iter().flatten().copied().collect();
        seen.sort();
        assert_eq!(seen, (0..23).collect::<Vec<usize>>());
        for g in &groups {
            assert!(!g.is_empty() && g.len() <= batch);
            assert!(g.windows(2).all(|w| w[0] < w[1]));
            assert!(g.iter().all(|&i| tokenized[i].len() == tokenized[g[0]].len()));
        }
        assert!(groups.windows(2).all(|w| w[0][0] < w[1][0]));
    }
}

#[test]
fn flattening_a_group() {
    let tokenized: Vec<Vec<u32>> = vec![vec![1, 2], vec![3], vec![4, 5]];
    assert_eq!(flatten_group(&tokenized, &vec![0, 2]), vec![1, 2, 4, 5]);
}

#[test]
fn clipping_token_ids() {
    assert_eq!(
        clip_token_ids(vec![vec![1, 2, 3], vec![4]], 2),
        Ok(vec![vec![1, 2], vec![4]])
    );
    assert_eq!(clip_token_ids(vec![vec![1], vec![]], 2), Err(JinaError::EmptyTokens));
    assert_eq!(clip_token_ids(vec![vec![1]], 0), Err(JinaError::EmptyTokens));
}

#[test]
fn code_prompts() {
    assert_eq!(code_prompt_type(None), "query");
    assert_eq!(code_prompt_type(Some(PromptName::Query)), "query");
    assert_eq!(code_prompt_type(Some(PromptName::Document)), "passage");
    assert_eq!(code_prompt_type(Some(PromptName::Passage)), "passage");
    assert_eq!(
        code_prefixed_text(&JinaTask::Nl2Code, "query", "sort a list"),
        "Find the most relevant code snippet given the following query:\nsort a list"
    );
    assert_eq!(
        code_prefixed_text(&JinaTask::Nl2Code, "passage", "fn f() {}"),
        "Candidate code snippet:\nfn f() {}"
    );
    assert_eq!(
        code_prefixed_text(&JinaTask::Qa, "query", "why?"),
        "Find the most relevant answer given the following question:\nwhy?"
    );
    assert_eq!(code_prefixed_text(&JinaTask::Code2Nl, "passage", "c"), "Candidate comment:\nc");
    assert_eq!(
        code_prefixed_text(&JinaTask::Code2Completion, "query", "x"),
        "Find the most relevant completion given the following start of code snippet:\nx"
    );
    assert_eq!(code_prefixed_text(&JinaTask::Retrieval, "query", "plain"), "plain");
}

#[test]
fn text_prompts() {
    assert_eq!(v5_text_prompt(&JinaTask::Retrieval, None), "Query: ");
    assert_eq!(v5_text_prompt(&JinaTask::Retrieval, Some(PromptName::Passage)), "Document: ");
    assert_eq!(v5_text_prompt(&JinaTask::Classification, Some(PromptName::Query)), "Document: ");
    assert_eq!(v5_text_prompt(&JinaTask::Nl2Code, None), "");
}

#[test]
fn ordered_embeddings() {
    assert_eq!(collect_ordered_embeddings(vec![Some(1), Some(2)]), Ok(vec![1, 2]));
    assert_eq!(
        collect_ordered_embeddings(vec![Some(1), None, None]),
        Err(JinaError::MissingEmbedding { index: 1 })
    );
    assert_eq!(collect_ordered_embeddings::<u8>(Vec::new()), Ok(Vec::new()));
}

#[test]
fn lora_factor_names() {
    assert_eq!(
        lora_keys("model.layers.0.self_attn.q_proj.weight"),
        (
            "base_model.model.layers.0.self_attn.q_proj.lora_A.weight".to_string(),
            "base_model.model.layers.0.self_attn.q_proj.lora_B.weight".to_string()
        )
    );
    assert_eq!(
        lora_keys("embed.bias"),
        ("base_model.model.embed.bias".to_string(), "base_model.model.embed.bias".to_string())
    );
}

#[test]
fn replacing_like_str_replace() {
    for (s, p, r) in [("aaa", "aa", "b"), ("x.weight.weight", ".weight", "!"), ("", "a", "b"), ("abc", "abcd", "z")] {
        assert_eq!(replace_str(s, p, r), s.replace(p, r));
    }
}
