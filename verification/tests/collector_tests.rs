use hostfacts::collector::CollectError;
use hostfacts::collector::FactsDoc;
use hostfacts::collector::merge_collected;
use hostfacts::kernel::build_kernel_facts;
use hostfacts::memory::memory_facts_from_text;

fn kernel_doc() -> FactsDoc {
    FactsDoc::Kernel(build_kernel_facts(
        "Linux".to_string(),
        "x86_64".to_string(),
        "5.15.0-48-generic".to_string(),
    ))
}

fn memory_doc() -> FactsDoc {
    FactsDoc::Memory(memory_facts_from_text(
        "MemTotal: 100 B\nMemAvailable: 25 B\n",
    ))
}

#[test]
fn test_merge_keeps_successes_in_order() {
    let results = vec![
        ("kernel".to_string(), Ok(kernel_doc())),
        ("memory".to_string(), Ok(memory_doc())),
    ];
    let merged = merge_collected(results);
    assert_eq!(merged.len(), 2);
    assert_eq!(merged[0].0, "kernel");
    assert!(matches!(merged[0].1, FactsDoc::Kernel(_)));
    assert_eq!(merged[1].0, "memory");
    assert!(matches!(merged[1].1, FactsDoc::Memory(_)));
}

#[test]
fn test_merge_isolates_failures() {
    // collector A fails, collector B succeeds: B's key is present with
    // its document, A's key is absent, and the run still completes
    let results = vec![
        (
            "kernel".to_string(),
            Err(CollectError::IOError("reading the release file".to_string())),
        ),
        ("memory".to_string(), Ok(memory_doc())),
    ];
    let merged = merge_collected(results);
    assert_eq!(merged.len(), 1);
    assert_eq!(merged[0].0, "memory");
    assert!(matches!(merged[0].1, FactsDoc::Memory(_)));
    assert!(merged.iter().all(|(name, _)| name != "kernel"));
}

#[test]
fn test_merge_all_failures_yields_empty_document() {
    let results = vec![
        (
            "kernel".to_string(),
            Err(CollectError::ParseError("malformed".to_string())),
        ),
        (
            "network".to_string(),
            Err(CollectError::SubprocessError("spawn failed".to_string())),
        ),
    ];
    let merged = merge_collected(results);
    assert!(merged.is_empty());
}
