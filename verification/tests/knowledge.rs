use meetly_core::app::knowledge::{
    chunk_text, count_terms, document_name, is_cjk_char, missing_document, rank, retrieve_context,
    safe_file_name, select_hits, split_by_chars, tokenize, truncate_chars, Bm25Index, Chunk,
    KnowledgeHit, MAX_CHUNK_CHARS, MIN_EVIDENCE_SCORE,
};

const BM25_K1: f64 = 1.5;
const BM25_B: f64 = 0.75;

fn chunk(doc: &str, text: &str) -> Chunk {
    Chunk { doc: doc.to_string(), text: text.to_string() }
}

fn average_length(index: &Bm25Index) -> f64 {
    if index.docs.is_empty() {
        1.0
    } else {
        index.total_terms as f64 / index.docs.len() as f64
    }
}

fn idf(index: &Bm25Index, term: &str) -> f64 {
    let n = index.document_frequency(term) as f64;
    let big_n = index.docs.len().max(1) as f64;
    ((1.0 + (big_n - n + 0.5) / (n + 0.5)).ln()).max(0.0)
}

fn score(index: &Bm25Index, query: &str) -> Vec<(usize, f64)> {
    let terms = tokenize(query);
    let mut scores = Vec::new();
    for doc in 0..index.docs.len() {
        let mut score = 0.0;
        for term in &terms {
            let f = index.term_frequency(doc, term) as f64;
            if f == 0.0 {
                continue;
            }
            let length = index.docs[doc].len as f64 / average_length(index).max(1.0);
            let norm = 1.0 - BM25_B + BM25_B * length;
            score += idf(index, term) * ((f * (BM25_K1 + 1.0)) / (f + BM25_K1 * norm));
        }
        scores.push(score);
    }
    let keys: Vec<u64> = scores.iter().map(|score| score.to_bits()).collect();
    rank(&keys).into_iter().map(|doc| (doc, scores[doc])).collect()
}

#[test]
fn tokenize_makes_cjk_bigrams() {
    let tokens = tokenize("分布式限流");
    assert!(tokens.contains(&"分布".to_string()));
    assert!(tokens.contains(&"限流".to_string()));
    assert!(tokens.contains(&"布".to_string()));
}

#[test]
fn tokenize_keeps_latin_words_and_drops_stopwords() {
    let tokens = tokenize("Redis Lua script");
    assert!(tokens.contains(&"redis".to_string()));
    assert!(tokens.contains(&"lua".to_string()));
    assert!(tokens.contains(&"script".to_string()));
}

#[test]
fn chunk_text_splits_on_headings() {
    let text = "# 项目\n用 Redis 做了限流\n\n# 难点\nLua 脚本保证原子性";
    let chunks = chunk_text(text);
    assert!(chunks.len() >= 2);
    assert!(chunks[0].starts_with("# 项目"));
}

#[test]
fn bm25_ranks_relevant_chunk_first() {
    let chunks = vec![
        Chunk {
            doc: "a".to_string(),
            text: "用 Redis 和 Lua 实现分布式限流器".to_string(),
        },
        Chunk {
            doc: "b".to_string(),
            text: "使用 React 搭建前端页面组件".to_string(),
        },
    ];
    let index = Bm25Index::new(&chunks);
    let scored = score(&index, "Redis 限流");
    assert_eq!(scored[0].0, 0);
    assert!(scored[0].1 > scored[1].1);
}

#[test]
fn safe_file_name_strips_traversal() {
    assert_eq!(safe_file_name("resume.md", false).unwrap(), "resume.md");
    assert_eq!(safe_file_name("../../etc/passwd", false).unwrap(), "passwd");
    assert!(safe_file_name("..", false).is_err());
}

#[test]
fn short_words_are_dropped_and_words_lowered() {
    assert_eq!(tokenize("Use Redis 7 in Go, 限流!"), vec!["use", "redis", "限", "限流", "流"]);
    assert!(is_cjk_char('限'));
    assert!(!is_cjk_char('r'));
}

#[test]
fn split_text_loses_nothing() {
    let text: Vec<char> = "abcdefg".chars().collect();
    let parts = split_by_chars(&text, 3);
    assert_eq!(parts, vec![vec!['a', 'b', 'c'], vec!['d', 'e', 'f'], vec!['g']]);
    assert!(split_by_chars(&[], 3).is_empty());
}

#[test]
fn chunks_are_bounded() {
    let long = "x".repeat(2 * MAX_CHUNK_CHARS + 5);
    let chunks = chunk_text(&format!("# title\n{}\n\nshort tail", long));
    assert!(chunks.len() >= 3);
    assert!(chunks.iter().all(|chunk| chunk.chars().count() <= MAX_CHUNK_CHARS));
    assert_eq!(chunk_text(" \n\n "), Vec::<String>::new());
}

#[test]
fn terms_are_counted() {
    let tokens: Vec<String> =
        ["b", "a", "b"].iter().map(|token| token.to_string()).collect();
    let table = count_terms(&tokens);
    assert_eq!(table.len(), 2);
    assert!(table.contains(&("b".to_string(), 2)));
    assert!(table.contains(&("a".to_string(), 1)));
}

#[test]
fn frequencies_are_those_of_the_chunks() {
    let index = Bm25Index::new(&vec![chunk("a", "redis redis lua"), chunk("b", "redis")]);
    assert_eq!(index.term_frequency(0, "redis"), 2);
    assert_eq!(index.term_frequency(1, "lua"), 0);
    assert_eq!(index.document_frequency("redis"), 2);
    assert_eq!(index.document_frequency("lua"), 1);
    assert_eq!(index.document_frequency("java"), 0);
    assert_eq!(index.total_terms, 4);
    assert_eq!(Bm25Index::new(&vec![]).total_terms, 0);
}

#[test]
fn ranking_is_stable() {
    assert_eq!(rank(&vec![1, 3, 3, 2]), vec![1, 2, 3, 0]);
    assert_eq!(rank(&vec![]), Vec::<usize>::new());
}

#[test]
fn evidence_below_the_threshold_is_left_out() {
    assert_eq!(MIN_EVIDENCE_SCORE, 0.08_f32.to_bits());
    let chunks = vec![chunk("a", "one"), chunk("b", "two"), chunk("c", "three")];
    let ranked = vec![
        (2, 1.0_f32.to_bits()),
        (0, 0.08_f32.to_bits()),
        (1, 0.07_f32.to_bits()),
    ];
    let hits = select_hits(&ranked, &chunks, 3);
    let docs: Vec<&str> = hits.iter().map(|hit| hit.doc.as_str()).collect();
    assert_eq!(docs, vec!["c", "a"]);
    assert_eq!(select_hits(&ranked, &chunks, 1).len(), 1);
}

#[test]
fn no_hits_make_no_context() {
    assert!(retrieve_context(&vec![]).is_none());
    let hit = KnowledgeHit {
        doc: "resume.md".to_string(),
        text: "built a rate limiter".to_string(),
        score: 1.0_f32.to_bits(),
    };
    let context = retrieve_context(&vec![hit]).unwrap();
    assert!(context.contains("resume.md"));
    assert!(context.contains("built a rate limiter"));
}

#[test]
fn texts_are_cut_by_characters() {
    assert_eq!(truncate_chars("分布式", 2), "分布");
    assert_eq!(truncate_chars("分布式", 3), "分布式");
}

#[test]
fn document_names_stay_in_the_folder() {
    assert_eq!(safe_file_name("a\\b/c.md", false).unwrap(), "c.md");
    assert!(safe_file_name("", false).is_err());
    assert_eq!(safe_file_name("dir/", false).unwrap(), "dir");
    assert!(safe_file_name("/", false).is_err());
    assert_eq!(safe_file_name(&safe_file_name("x/y.md", false).unwrap(), false).unwrap(), "y.md");
    assert!(document_name("notes.md", "  ", false).is_err());
    assert_eq!(document_name("x/notes.md", "text", false).unwrap(), "notes.md");
    assert!(missing_document("notes.md").contains("notes.md"));
}

#[test]
fn document_names_stay_in_the_folder_on_windows() {
    for (path, name) in [
        ("resume.md", "resume.md"),
        ("..\\..\\notes.md", "notes.md"),
        ("../..\\notes.md", "notes.md"),
        ("C:\\docs\\notes.md", "notes.md"),
        ("c:notes.md", "notes.md"),
        ("docs\\.\\", "docs"),
        ("\\\\server\\share\\notes.md", "notes.md"),
        ("\\\\server", "server"),
        ("\\\\server\\\\share", "share"),
        ("\\\\?\\C:\\docs\\notes.md", "notes.md"),
        ("\\\\?\\UNC\\server\\share\\notes.md", "notes.md"),
        ("\\\\.\\COM1\\notes.md", "notes.md"),
        ("notes.md:old", "notes.md:old"),
    ] {
        assert_eq!(safe_file_name(path, true).unwrap(), name);
        assert_eq!(safe_file_name(name, true).unwrap(), name);
    }
    for path in [
        "",
        ".",
        "..",
        "a\\..",
        "C:",
        "C:\\",
        "C:..",
        "docs\\C:notes.md",
        "\\\\server\\share",
        "\\\\server\\share\\",
        "\\\\.\\COM1",
        "\\\\?\\C:",
        "\\\\?\\docs",
        "\\\\?\\UNC\\server\\share",
        "\\\\?\\C:\\../notes.md",
    ] {
        assert_eq!(safe_file_name(path, true).unwrap_err(), "无效的文件名。");
    }
    assert_eq!(safe_file_name("..\\notes.md", false).unwrap(), "..\\notes.md");
    assert_eq!(safe_file_name("C:notes.md", false).unwrap(), "C:notes.md");
    assert_eq!(document_name("C:\\notes.md", "text", true).unwrap(), "notes.md");
    assert_eq!(document_name("C:\\notes.md", " ", true).unwrap_err(), "文档内容为空。");
}

#[test]
fn passages_say_all_that_a_document_says() {
    let long = "长".repeat(1700);
    let content = format!("# One\r\n first line \n\n{}\n\t# Two\nlast\n\n \nend", long);
    let chunks = chunk_text(&content);
    let ink = |text: &str| text.chars().filter(|c| !c.is_whitespace()).collect::<String>();
    assert_eq!(ink(&chunks.concat()), ink(&content));
    assert_eq!(chunks.len(), 6);
    assert_eq!(chunks[4], "# Two\nlast");
    for chunk in &chunks {
        assert!(chunk.lines().skip(1).all(|line| !line.trim().starts_with('#')));
    }
}

#[test]
fn terms_around_a_separator_are_those_of_the_parts() {
    let mut parts = tokenize("Redis 限流");
    parts.extend(tokenize("限速 Lua"));
    assert_eq!(tokenize("Redis 限流,限速 Lua"), parts);
}
