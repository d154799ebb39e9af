use jgrep::chunk::{decode_file_text, split_into_chunks, split_token_windows};
use jgrep::types::Granularity;

#[test]
fn chunks_lines() {
    let chunks = split_into_chunks("one\n\n two \n", Granularity::Line);
    assert_eq!(chunks.len(), 2);
    assert_eq!(chunks[0].line_number, 1);
    assert_eq!(chunks[1].line_number, 3);
}

#[test]
fn chunks_paragraphs() {
    let chunks = split_into_chunks("a\nb\n\nc\n", Granularity::Paragraph);
    assert_eq!(chunks.len(), 2);
    assert_eq!(chunks[0].text, "a\nb");
    assert_eq!(chunks[1].line_number, 4);
}

#[test]
fn chunks_sentences() {
    let chunks = split_into_chunks("One. Two? 三！\n", Granularity::Sentence);
    assert_eq!(chunks.len(), 3);
}

#[test]
fn chunks_token_windows_keep_line_numbers() {
    let content = format!("{}\nshort", "x".repeat(1600));
    let chunks = split_token_windows(&content, 512);
    assert_eq!(chunks.len(), 2);
    assert_eq!(chunks[1].line_number, 2);
}

#[test]
fn line_chunks_trim_trailing_whitespace_only() {
    let chunks = split_into_chunks("  lead\ttrail  \r\n\t\n", Granularity::Line);
    assert_eq!(chunks.len(), 1);
    assert_eq!(chunks[0].text, "  lead\ttrail");
    assert_eq!(chunks[0].line_number, 1);
}

#[test]
fn sentence_chunks_keep_terminators_and_line_numbers() {
    let chunks = split_into_chunks("\nOne. Two?\n\nthree", Granularity::Sentence);
    let texts: Vec<&str> = chunks.iter().map(|c| c.text.as_str()).collect();
    assert_eq!(texts, vec!["One.", "Two?", "three"]);
    let lines: Vec<usize> = chunks.iter().map(|c| c.line_number).collect();
    assert_eq!(lines, vec![2, 2, 4]);
}

#[test]
fn token_windows_pack_short_lines_together() {
    let chunks = split_into_chunks("a\nb\n\nc", Granularity::Token);
    assert_eq!(chunks.len(), 1);
    assert_eq!(chunks[0].text, "a\nb\nc");
    assert_eq!(chunks[0].line_number, 1);
}

#[test]
fn token_windows_count_utf8_bytes() {
    // 200 three-byte characters estimate to 200 tokens; three such lines
    // exceed a budget of 500 at the third.
    let line = "三".repeat(200);
    let content = format!("{line}\n{line}\n{line}");
    let chunks = split_token_windows(&content, 500);
    assert_eq!(chunks.len(), 2);
    assert_eq!(chunks[1].line_number, 3);
}

#[test]
fn empty_text_has_no_chunks() {
    assert!(split_into_chunks("", Granularity::Paragraph).is_empty());
    assert!(split_into_chunks(" \n\t\n", Granularity::Line).is_empty());
}

#[test]
fn decodes_file_bytes() {
    assert_eq!(decode_file_text(&"héllo".as_bytes().to_vec()), Some("héllo".to_string()));
    assert_eq!(decode_file_text(&vec![b'a', 0, b'b']), None);
    assert_eq!(decode_file_text(&vec![b'a', 0xe9, b'b']), Some("aéb".to_string()));
    assert_eq!(decode_file_text(&Vec::new()), Some(String::new()));
}

#[test]
fn chunk_line_numbers_ascend_and_texts_are_not_blank() {
    let content = "alpha\n\n  beta. gamma!\n\n\ndelta\nepsilon\n";
    for g in [Granularity::Line, Granularity::Paragraph, Granularity::Sentence, Granularity::Token] {
        let chunks = split_into_chunks(content, g);
        assert!(!chunks.is_empty());
        assert!(chunks.windows(2).all(|w| w[0].line_number <= w[1].line_number));
        assert!(chunks.iter().all(|c| !c.text.trim().is_empty() && c.line_number >= 1));
    }
}

#[test]
fn every_nonblank_line_lands_in_one_token_window() {
    let content = "alpha\n\nbeta gamma\n  \ndelta\nepsilon zeta eta\n";
    let chunks = split_token_windows(content, 3);
    let from_windows: Vec<String> = chunks
        .iter()
        .flat_map(|c| c.text.split('\n').map(str::to_string).collect::<Vec<_>>())
        .collect();
    let nonblank: Vec<String> = content.lines().filter(|l| !l.trim().is_empty()).map(str::to_string).collect();
    assert_eq!(from_windows, nonblank);
    let lines: Vec<&str> = content.lines().collect();
    for c in &chunks {
        assert_eq!(c.text.split('\n').next().unwrap(), lines[c.line_number - 1]);
    }
}

#[test]
fn paragraphs_are_maximal_runs_of_nonblank_lines() {
    let content = "a\nb\n\n\nc\n \nd\ne\nf";
    let chunks = split_into_chunks(content, Granularity::Paragraph);
    let got: Vec<(usize, &str)> = chunks.iter().map(|c| (c.line_number, c.text.as_str())).collect();
    assert_eq!(got, vec![(1, "a\nb"), (5, "c"), (7, "d\ne\nf")]);
}
