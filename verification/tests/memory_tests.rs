use hostfacts::memory::assoc_get;
use hostfacts::memory::build_memory_facts;
use hostfacts::memory::format_bytes;
use hostfacts::memory::memory_facts_from_text;
use hostfacts::memory::parse_meminfo;
use hostfacts::memory::pct_string;
use hostfacts::memory::MemoryComponent;

#[test]
fn test_parse_meminfo() {
    let meminfo_content = "MemTotal:       16384 kB\nSwapTotal:      8192 kB\n";
    let meminfo = parse_meminfo(meminfo_content);
    assert_eq!(assoc_get(&meminfo, "MemTotal"), Some(16777216));
    assert_eq!(assoc_get(&meminfo, "SwapTotal"), Some(8388608));
}

#[test]
fn test_parse_meminfo_units_and_bad_lines() {
    let text = "A: 2 kB\nB: 3 mB\nC: 4 MB\nD: 5 B\nE: 6\nF: 7 HugePages\nno colon here\nG: notanumber\nA: 10 kB\n";
    let m = parse_meminfo(text);
    // last occurrence of a repeated label wins
    assert_eq!(assoc_get(&m, "A"), Some(10240));
    assert_eq!(assoc_get(&m, "B"), Some(3_000_000));
    assert_eq!(assoc_get(&m, "C"), Some(4_000_000));
    assert_eq!(assoc_get(&m, "D"), Some(5));
    assert_eq!(assoc_get(&m, "E"), Some(6));
    // unrecognized unit counts as bytes
    assert_eq!(assoc_get(&m, "F"), Some(7));
    // malformed lines are skipped
    assert_eq!(assoc_get(&m, "G"), None);
    assert_eq!(m.len(), 6);
}

#[test]
fn test_build_memory_facts() {
    let meminfo: Vec<(String, u64)> = vec![
        ("MemTotal".to_string(), 16777216),
        ("SwapTotal".to_string(), 8388608),
    ];
    // totals without an available/free counterpart name no pool
    let memory_facts = build_memory_facts(&meminfo);
    assert_eq!(memory_facts.0.len(), 0);

    let meminfo_full: Vec<(String, u64)> = vec![
        ("MemTotal".to_string(), 16777216),
        ("MemAvailable".to_string(), 4194304),
        ("SwapTotal".to_string(), 8388608),
        ("SwapFree".to_string(), 8388608),
    ];
    let facts = build_memory_facts(&meminfo_full);
    assert_eq!(facts.0.len(), 2);
    assert_eq!(facts.get("system").unwrap().total_bytes, 16777216);
    assert_eq!(facts.get("swap").unwrap().total_bytes, 8388608);
}

#[test]
fn test_aggregate_two_pools() {
    let text = "MemTotal: 2048000 kB\nMemAvailable: 1024000 kB\nSwapTotal: 1024000 kB\nSwapFree: 512000 kB\n";
    let facts = memory_facts_from_text(text);
    assert_eq!(facts.0.len(), 2);

    let system = facts.get("system").unwrap();
    assert_eq!(system.total_bytes, 2097152000);
    assert_eq!(system.available_bytes, 1048576000);
    assert_eq!(system.used_bytes, 1048576000);
    assert_eq!(system.capacity_pct, "50.00%");

    let swap = facts.get("swap").unwrap();
    assert_eq!(swap.total_bytes, 1048576000);
    assert_eq!(swap.available_bytes, 524288000);
    assert_eq!(swap.used_bytes, 524288000);
    assert_eq!(swap.capacity_pct, "50.00%");
}

#[test]
fn test_incomplete_pool_is_omitted() {
    // a total with no available/free counterpart must not appear
    let text = "MemTotal: 1000 kB\nSwapTotal: 500 kB\nSwapFree: 100 kB\n";
    let facts = memory_facts_from_text(text);
    assert_eq!(facts.0.len(), 1);
    assert!(facts.get("system").is_none());
    assert!(facts.get("swap").is_some());
}

#[test]
fn test_zero_total_pool_is_omitted() {
    let text = "SwapTotal: 0 kB\nSwapFree: 0 kB\nMemTotal: 10 B\nMemAvailable: 5 B\n";
    let facts = memory_facts_from_text(text);
    assert_eq!(facts.0.len(), 1);
    assert!(facts.get("swap").is_none());
}

#[test]
fn test_other_pool_names_and_separators() {
    let text = "Hugetlb_Total: 100 B\nHugetlb_Free: 40 B\nVmalloc_Total: 8 B\nVmallocUsed: 2 B\n";
    let facts = memory_facts_from_text(text);
    // Vmalloc has no available/free counterpart, Hugetlb does
    assert_eq!(facts.0.len(), 1);
    let pool = facts.get("hugetlb").unwrap();
    assert_eq!(pool.total_bytes, 100);
    assert_eq!(pool.available_bytes, 40);
    assert_eq!(pool.used_bytes, 60);
    assert_eq!(pool.capacity_pct, "60.00%");
}

#[test]
fn test_same_pool_name_takes_last_entry() {
    // `MemTotal` and `Mem_Total` share the base `Mem`: the later entry
    // replaces the earlier pool in place, and the available lookup still
    // prefers `MemAvailable` over `Mem_Available`
    let text = "MemTotal: 100 B\nMemAvailable: 50 B\nMem_Total: 200 B\nMem_Available: 80 B\n";
    let facts = memory_facts_from_text(text);
    assert_eq!(facts.0.len(), 1);
    let pool = facts.get("system").unwrap();
    assert_eq!(pool.total_bytes, 200);
    assert_eq!(pool.available_bytes, 50);
    assert_eq!(pool.used_bytes, 150);
}

#[test]
fn test_available_clamped_to_total() {
    let text = "MemTotal: 100 B\nMemAvailable: 150 B\n";
    let facts = memory_facts_from_text(text);
    let pool = facts.get("system").unwrap();
    assert_eq!(pool.available_bytes, 100);
    assert_eq!(pool.used_bytes, 0);
    assert_eq!(pool.capacity_pct, "0.00%");
}

#[test]
fn test_pool_accounting_balances() {
    let text = "MemTotal: 977 kB\nMemAvailable: 131 kB\nSwapTotal: 3 mB\nSwapFree: 1 MB\n";
    let facts = memory_facts_from_text(text);
    assert_eq!(facts.0.len(), 2);
    for (_i, pool) in facts.0.iter().enumerate() {
        assert!(pool.available_bytes <= pool.total_bytes);
        assert_eq!(pool.used_bytes + pool.available_bytes, pool.total_bytes);
    }
}

#[test]
fn test_format_bytes_zero() {
    assert_eq!(format_bytes(0), "0 B");
}

#[test]
fn test_format_bytes_values() {
    assert_eq!(format_bytes(1), "1 B");
    assert_eq!(format_bytes(1023), "1023 B");
    assert_eq!(format_bytes(1024), "1.00 KiB");
    assert_eq!(format_bytes(1536), "1.50 KiB");
    assert_eq!(format_bytes(11776), "11.5 KiB");
    assert_eq!(format_bytes(102400), "100 KiB");
    assert_eq!(format_bytes(1048576), "1.00 MiB");
    assert_eq!(format_bytes(1073741824), "1.00 GiB");
    assert_eq!(format_bytes(1099511627776), "1.00 TiB");
    assert_eq!(format_bytes(1125899906842624), "1.00 PiB");
    assert_eq!(format_bytes(u64::MAX), "16383 PiB");
}

#[test]
fn test_pct_string() {
    assert_eq!(pct_string(0, 0), "0.00%");
    assert_eq!(pct_string(0, 7), "0.00%");
    assert_eq!(pct_string(1, 3), "33.33%");
    assert_eq!(pct_string(2, 3), "66.66%");
    assert_eq!(pct_string(7, 7), "100.00%");
}

#[test]
fn test_memory_component_name() {
    let c = MemoryComponent::new();
    assert_eq!(c.name(), "memory");
}
