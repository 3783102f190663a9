use skeg_rigging::chunk::{chunk, word_count, ChunkMode};

#[test]
fn chunker_modes() {
    // Paragraphs split on blank lines.
    let paras = chunk("a\nb\n\nc\n", ChunkMode::Paragraph);
    assert_eq!(paras.len(), 2);
    assert_eq!(paras[0].text, "a\nb");
    assert_eq!(paras[0].line_lo, 1);
    assert_eq!(paras[0].line_hi, 2);
    assert_eq!(paras[1].text, "c");

    // Line windows slide by step.
    let text = (1..=10)
        .map(|n| n.to_string())
        .collect::<Vec<_>>()
        .join("\n");
    let wins = chunk(&text, ChunkMode::Lines { win: 4, step: 3 });
    assert!(wins.len() >= 3);
    assert_eq!(wins[0].line_lo, 1);
    assert_eq!(wins[0].line_hi, 4);
}

#[test]
fn line_windows_exact_ranges() {
    let text = (1..=10)
        .map(|n| n.to_string())
        .collect::<Vec<_>>()
        .join("\n");
    let wins = chunk(&text, ChunkMode::Lines { win: 4, step: 3 });
    let ranges: Vec<(usize, usize)> = wins.iter().map(|c| (c.line_lo, c.line_hi)).collect();
    // Windows start at lines 1, 4, 7; the one at 7 reaches the end.
    assert_eq!(ranges, vec![(1, 4), (4, 7), (7, 10)]);
    assert_eq!(wins[1].text, "4\n5\n6\n7");
}

#[test]
fn line_windows_skip_blank_and_clamp_zero() {
    // A blank window is dropped; win/step of zero act as one.
    let wins = chunk("x\n \ny", ChunkMode::Lines { win: 0, step: 0 });
    let ranges: Vec<(usize, usize)> = wins.iter().map(|c| (c.line_lo, c.line_hi)).collect();
    assert_eq!(ranges, vec![(1, 1), (3, 3)]);
    assert_eq!(wins[1].text, "y");
}

#[test]
fn paragraphs_handle_crlf_and_whitespace_lines() {
    let paras = chunk("one\r\ntwo\r\n \t\r\n\r\nthree", ChunkMode::Paragraph);
    assert_eq!(paras.len(), 2);
    assert_eq!(paras[0].text, "one\ntwo");
    assert_eq!((paras[0].line_lo, paras[0].line_hi), (1, 2));
    assert_eq!(paras[1].text, "three");
    assert_eq!((paras[1].line_lo, paras[1].line_hi), (5, 5));
}

#[test]
fn empty_and_blank_texts_have_no_chunks() {
    assert!(chunk("", ChunkMode::Paragraph).is_empty());
    assert!(chunk("  \n\n\t", ChunkMode::Paragraph).is_empty());
    assert!(chunk("", ChunkMode::Lines { win: 4, step: 2 }).is_empty());
    assert!(chunk("\n \n", ChunkMode::Lines { win: 1, step: 1 }).is_empty());
}

#[test]
fn for_ext_picks_mode() {
    for e in ["md", "mdx", "txt", "rst"] {
        assert!(matches!(ChunkMode::for_ext(e), ChunkMode::Paragraph));
    }
    assert!(matches!(
        ChunkMode::for_ext("rs"),
        ChunkMode::Lines { win: 40, step: 30 }
    ));
    assert!(matches!(
        ChunkMode::for_ext(""),
        ChunkMode::Lines { win: 40, step: 30 }
    ));
    assert!(matches!(
        ChunkMode::for_ext("MD"),
        ChunkMode::Lines { win: 40, step: 30 }
    ));
}

#[test]
fn word_count_counts_runs() {
    assert_eq!(word_count(""), 0);
    assert_eq!(word_count("   \t\n"), 0);
    assert_eq!(word_count("alpha beta gamma."), 3);
    assert_eq!(word_count("  lead\u{3000}ideographic\u{a0}nbsp  trail "), 4);
    assert_eq!(word_count("a\nb\r\nc"), 3);
}
