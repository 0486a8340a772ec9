use ragd::chunker::{
    chunk_code, chunk_file, chunk_nodes, chunk_text, is_binary_extension, language_for_extension,
    Chunk, ChunkingConfig, Grammar,
};

fn tiny_config() -> ChunkingConfig {
    ChunkingConfig { chunk_lines: 3, overlap_lines: 1, max_chars: 1000 }
}

fn numbered_lines(n: usize) -> String {
    (0..n).map(|i| format!("line{i}")).collect::<Vec<_>>().join("\n")
}

#[test]
fn chunk_text_empty_content_yields_no_chunks() {
    assert_eq!(chunk_text("", &tiny_config()), Vec::new());
}

#[test]
fn chunk_text_shorter_than_budget_is_one_chunk() {
    let chunks = chunk_text("a\nb", &tiny_config());
    assert_eq!(
        chunks,
        vec![Chunk { content: "a\nb".to_string(), start_line: 0, end_line: 1 }]
    );
}

#[test]
fn chunk_text_splits_with_overlap() {
    // 7 lines, chunk_lines=3, overlap=1: [0,1,2], [2,3,4], [4,5,6]
    let content = numbered_lines(7);
    let chunks = chunk_text(&content, &tiny_config());

    assert_eq!(chunks.len(), 3);
    assert_eq!((chunks[0].start_line, chunks[0].end_line), (0, 2));
    assert_eq!((chunks[1].start_line, chunks[1].end_line), (2, 4));
    assert_eq!((chunks[2].start_line, chunks[2].end_line), (4, 6));
    assert_eq!(chunks[2].content, "line4\nline5\nline6");
}

#[test]
fn chunk_text_respects_max_chars_over_chunk_lines() {
    let config = ChunkingConfig { chunk_lines: 100, overlap_lines: 0, max_chars: 12 };
    // Each line is 5 chars + newline = 6; two lines fit (12), a third would not.
    let content = "aaaaa\nbbbbb\nccccc\nddddd";
    let chunks = chunk_text(content, &config);

    assert_eq!(chunks[0].content, "aaaaa\nbbbbb");
}

#[test]
fn chunk_text_makes_forward_progress_even_with_pathological_config() {
    // overlap_lines >= chunk_lines must not infinite-loop.
    let config = ChunkingConfig { chunk_lines: 2, overlap_lines: 10, max_chars: 1000 };
    let content = numbered_lines(10);
    let chunks = chunk_text(&content, &config);

    assert!(!chunks.is_empty());
    assert_eq!(chunks.last().expect("at least one chunk").end_line, 9);
}

#[test]
fn chunk_code_splits_along_function_boundaries() {
    let source = "fn a() {\n    1;\n}\n\nfn b() {\n    2;\n}\n\nfn c() {\n    3;\n}\n";
    let config = ChunkingConfig { chunk_lines: 4, overlap_lines: 0, max_chars: 1000 };
    let chunks = chunk_code(source, Grammar::Rust, &config).expect("parses");

    assert!(chunks.len() >= 2, "expected multiple chunks, got {chunks:?}");
    for chunk in &chunks {
        assert!(
            chunk.content.contains("fn "),
            "chunk should align to function boundaries: {chunk:?}"
        );
    }
}

#[test]
fn chunk_code_falls_back_to_text_for_empty_file() {
    let chunks = chunk_code("", Grammar::Rust, &ChunkingConfig::default()).expect("parses");
    assert_eq!(chunks, Vec::new());
}

#[test]
fn chunk_code_sub_splits_an_oversized_single_node() {
    // One function with many statements, budget far smaller than the whole thing.
    let body: String = (0..50).map(|i| format!("    let x{i} = {i};\n")).collect();
    let source = format!("fn big() {{\n{body}}}\n");
    let config = ChunkingConfig { chunk_lines: 10, overlap_lines: 2, max_chars: 100_000 };

    let chunks = chunk_code(&source, Grammar::Rust, &config).expect("parses");

    assert!(
        chunks.len() > 1,
        "a 52-line function with a 10-line budget must be sub-split"
    );
    for chunk in &chunks {
        let line_count = chunk.content.lines().count();
        assert!(
            line_count <= config.chunk_lines,
            "chunk has {line_count} lines, over budget: {chunk:?}"
        );
    }
}

#[test]
fn chunk_file_dispatches_by_extension() {
    let rust_chunks = chunk_file("rs", "fn a() {}\n", &ChunkingConfig::default());
    assert_eq!(rust_chunks.len(), 1);

    let text_chunks = chunk_file("md", "# hello\n", &ChunkingConfig::default());
    assert_eq!(text_chunks.len(), 1);
}

#[test]
fn is_binary_extension_matches_known_binary_types_case_insensitively() {
    assert!(is_binary_extension("png"));
    assert!(is_binary_extension("PNG"));
    assert!(is_binary_extension("exe"));
    assert!(!is_binary_extension("rs"));
    assert!(!is_binary_extension("md"));
}

#[test]
fn chunk_text_is_deterministic_and_covers_every_line() {
    for line_count in 0usize..40 {
        for chunk_lines in 1usize..10 {
            for overlap_lines in 0usize..10 {
                let content = numbered_lines(line_count);
                let config = ChunkingConfig { chunk_lines, overlap_lines, max_chars: 10_000 };

                let first = chunk_text(&content, &config);
                let second = chunk_text(&content, &config);
                assert_eq!(&first, &second, "chunking must be deterministic");

                if line_count == 0 {
                    assert!(first.is_empty());
                } else {
                    assert_eq!(first[0].start_line, 0);
                    assert_eq!(
                        first.last().expect("non-empty").end_line,
                        line_count as u32 - 1
                    );
                    for pair in first.windows(2) {
                        assert!(
                            pair[1].start_line <= pair[0].end_line + 1,
                            "gap between chunks: {pair:?}"
                        );
                        assert!(
                            pair[1].start_line > pair[0].start_line,
                            "no forward progress: {pair:?}"
                        );
                    }
                }
            }
        }
    }
}

#[test]
fn chunk_text_strips_carriage_returns_and_keeps_blank_lines() {
    let config = ChunkingConfig { chunk_lines: 2, overlap_lines: 0, max_chars: 1000 };
    let chunks = chunk_text("a\r\n\r\nb\rc\n", &config);
    assert_eq!(chunks.len(), 2);
    assert_eq!(chunks[0].content, "a\n");
    assert_eq!((chunks[0].start_line, chunks[0].end_line), (0, 1));
    assert_eq!(chunks[1].content, "b\rc");
    assert_eq!((chunks[1].start_line, chunks[1].end_line), (2, 2));
}

#[test]
fn a_line_over_the_budget_is_a_chunk_of_its_own() {
    let config = ChunkingConfig { chunk_lines: 10, overlap_lines: 0, max_chars: 4 };
    let chunks = chunk_text("aaaaaaaa\nb\nc", &config);
    assert_eq!(chunks.len(), 2);
    assert_eq!(chunks[0].content, "aaaaaaaa");
    assert_eq!(chunks[1].content, "b\nc");
}

#[test]
fn the_character_budget_counts_characters() {
    let config = ChunkingConfig { chunk_lines: 10, overlap_lines: 0, max_chars: 6 };
    // Each line is two characters and its line feed, though four bytes long.
    let chunks = chunk_text("\u{e9}\u{e9}\n\u{e9}\u{e9}", &config);
    assert_eq!(chunks.len(), 1);
    assert_eq!(chunks[0].content, "\u{e9}\u{e9}\n\u{e9}\u{e9}");

    let chunks = chunk_text("\u{e9}\n\u{e9}\n\u{e9}\n\u{e9}", &config);
    assert_eq!(chunks.len(), 2);
    assert_eq!(chunks[0].content, "\u{e9}\n\u{e9}\n\u{e9}");
    assert_eq!(chunks[1].content, "\u{e9}");
}

#[test]
fn a_zero_line_budget_still_makes_progress() {
    let config = ChunkingConfig { chunk_lines: 0, overlap_lines: 0, max_chars: 100 };
    let chunks = chunk_text("a\nb", &config);
    assert_eq!(chunks.len(), 2);
    assert_eq!(chunks[0].content, "a");
    assert_eq!(chunks[1].content, "b");
}

#[test]
fn default_budgets() {
    let config = ChunkingConfig::default();
    assert_eq!(config.chunk_lines, 80);
    assert_eq!(config.overlap_lines, 15);
    assert_eq!(config.max_chars, 1500);
}

#[test]
fn extensions_select_their_grammar() {
    assert_eq!(language_for_extension("rs"), Some(Grammar::Rust));
    assert_eq!(language_for_extension("py"), Some(Grammar::Python));
    for extension in ["js", "jsx", "mjs", "cjs"] {
        assert_eq!(language_for_extension(extension), Some(Grammar::JavaScript));
    }
    assert_eq!(language_for_extension("ts"), Some(Grammar::TypeScript));
    assert_eq!(language_for_extension("tsx"), Some(Grammar::Tsx));
    assert_eq!(language_for_extension("go"), Some(Grammar::Go));
    assert_eq!(language_for_extension("RS"), None);
    assert_eq!(language_for_extension("md"), None);
}

#[test]
fn every_grammar_splits_between_functions() {
    let config = ChunkingConfig { chunk_lines: 2, overlap_lines: 0, max_chars: 1000 };
    let cases = [
        ("rs", "fn a() {\n}\nfn b() {\n}\n"),
        ("py", "def a():\n    return 1\ndef b():\n    return 2\n"),
        ("js", "function a() {\n}\nfunction b() {\n}\n"),
        ("ts", "function a(): void {\n}\nfunction b(): void {\n}\n"),
        ("tsx", "function a(): void {\n}\nfunction b(): void {\n}\n"),
    ];
    for (extension, source) in cases {
        let chunks = chunk_file(extension, source, &config);
        assert_eq!(chunks.len(), 2, "{extension}: {chunks:?}");
        assert_eq!((chunks[0].start_line, chunks[0].end_line), (0, 1));
        assert_eq!((chunks[1].start_line, chunks[1].end_line), (2, 3));
    }
    let go = "package main\n\nfunc a() {\n}\n";
    let chunks = chunk_file("go", go, &ChunkingConfig::default());
    assert_eq!(chunks.len(), 1);
    assert_eq!(chunks[0].content, "package main\n\nfunc a() {\n}");
}

#[test]
fn overlap_reaches_back_into_the_node_before() {
    let config = ChunkingConfig { chunk_lines: 3, overlap_lines: 1, max_chars: 1000 };
    let chunks = chunk_file("rs", "fn a() {\n}\nfn b() {\n}\n", &config);
    assert_eq!(chunks.len(), 2);
    assert_eq!((chunks[0].start_line, chunks[0].end_line), (0, 1));
    assert_eq!((chunks[1].start_line, chunks[1].end_line), (1, 3));
    assert_eq!(chunks[1].content, "}\nfn b() {\n}");
}

fn bounds(chunks: &[Chunk]) -> Vec<(u32, u32)> {
    chunks.iter().map(|chunk| (chunk.start_line, chunk.end_line)).collect()
}

#[test]
fn overlap_gives_way_to_a_node_that_fits() {
    let source = "fn a() {\n    1;\n}\nfn b() {\n    2;\n}\n";
    let chunks = chunk_code(source, Grammar::Rust, &tiny_config()).expect("parses");
    assert_eq!(bounds(&chunks), vec![(0, 2), (3, 5)]);
    assert_eq!(chunks[1].content, "fn b() {\n    2;\n}");

    // With a line to spare, one line of the node before is carried over.
    let config = ChunkingConfig { chunk_lines: 4, ..tiny_config() };
    let chunks = chunk_nodes(source, &vec![2, 5], &config);
    assert_eq!(bounds(&chunks), vec![(0, 2), (2, 5)]);

    // Only as many lines are carried over as there is room for.
    let config = ChunkingConfig { chunk_lines: 5, overlap_lines: 3, max_chars: 1000 };
    let chunks = chunk_nodes(source, &vec![2, 5], &config);
    assert_eq!(bounds(&chunks), vec![(0, 2), (1, 5)]);
}

#[test]
fn the_character_budget_shortens_the_overlap_too() {
    let source = "aaaa\nbbbb\ncccc\ndddd";
    let config = ChunkingConfig { chunk_lines: 10, overlap_lines: 1, max_chars: 10 };
    let chunks = chunk_nodes(source, &vec![1, 3], &config);
    assert_eq!(bounds(&chunks), vec![(0, 1), (2, 3)]);
    assert_eq!(chunks[1].content, "cccc\ndddd");
}

#[test]
fn only_a_node_over_the_budget_is_split_inside() {
    let config = ChunkingConfig { chunk_lines: 2, overlap_lines: 0, max_chars: 1000 };
    let chunks = chunk_nodes("a\nb\nc\nd\ne", &vec![0, 3, 4], &config);
    assert_eq!(bounds(&chunks), vec![(0, 0), (1, 2), (3, 3), (4, 4)]);
}

#[test]
fn a_node_that_ends_below_the_last_line_ends_with_it() {
    // A doc comment takes in its line feed, so it ends one row further down.
    let chunks = chunk_file("rs", "/// doc\n", &ChunkingConfig::default());
    assert_eq!(
        chunks,
        vec![Chunk { content: "/// doc".to_string(), start_line: 0, end_line: 0 }]
    );
    let config = ChunkingConfig { chunk_lines: 1, overlap_lines: 0, max_chars: 1000 };
    assert_eq!(bounds(&chunk_nodes("a\nb\n", &vec![0, 9], &config)), vec![(0, 0), (1, 1)]);
    assert_eq!(chunk_nodes("", &vec![7], &config), Vec::new());
}

#[test]
fn nodes_on_lines_already_taken_in_add_nothing() {
    let config = ChunkingConfig { chunk_lines: 1, overlap_lines: 0, max_chars: 1000 };
    let expected = vec![(0, 0), (1, 1), (2, 2)];
    assert_eq!(bounds(&chunk_nodes("a\nb\nc", &vec![0, 0, 1, 1, 2], &config)), expected);
    assert_eq!(bounds(&chunk_nodes("a\nb\nc", &vec![0, 1, 0, 2, 1], &config)), expected);
    // Two statements on one line.
    let chunks = chunk_code("fn a() {} fn b() {}\nfn c() {}\n", Grammar::Rust, &config);
    assert_eq!(bounds(&chunks.expect("parses")), vec![(0, 0), (1, 1)]);
}

#[test]
fn blank_lines_between_nodes_stay_out_only_where_they_must() {
    let source = "fn a() {\n}\n\n\nfn b() {\n}\n";
    let config = ChunkingConfig { chunk_lines: 2, overlap_lines: 0, max_chars: 1000 };
    let chunks = chunk_nodes(source, &vec![1, 5], &config);
    assert_eq!(bounds(&chunks), vec![(0, 1), (4, 5)]);
    let config = ChunkingConfig { chunk_lines: 3, ..config };
    let chunks = chunk_nodes(source, &vec![1, 5], &config);
    assert_eq!(bounds(&chunks), vec![(0, 1), (3, 5)]);
}

#[test]
fn code_chunks_quote_their_lines() {
    let source = "use x;\n\nfn a() {\n    1;\n    2;\n    3;\n}\nfn b() {}\n";
    check_quotes(source);
    check_quotes(&source.replace('\n', "\r\n"));
}

fn check_quotes(source: &str) {
    let lines: Vec<&str> = source.lines().collect();
    for chunk_lines in 0..6 {
        for overlap_lines in 0..4 {
            let config = ChunkingConfig { chunk_lines, overlap_lines, max_chars: 1000 };
            let mut covered = vec![false; lines.len()];
            for chunk in chunk_code(source, Grammar::Rust, &config).expect("parses") {
                let (start, end) = (chunk.start_line as usize, chunk.end_line as usize);
                assert_eq!(chunk.content, lines[start..=end].join("\n"));
                for line in start..=end {
                    covered[line] = true;
                }
            }
            for (line, text) in lines.iter().enumerate() {
                assert!(covered[line] || text.trim().is_empty(), "{config:?}: {line}");
            }
        }
    }
}
