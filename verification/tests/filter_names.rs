use file_mover::engine::{resolve_destination, Probe};
use file_mover::filter::{is_eligible, normalize_extensions};
use file_mover::names::{candidate_name, split_file_name, u64_to_decimal};

fn b(s: &str) -> Vec<u8> {
    s.as_bytes().to_vec()
}

fn bs(entries: &[&str]) -> Vec<Vec<u8>> {
    entries.iter().map(|e| b(e)).collect()
}

#[test]
fn normalize_mixed_entries() {
    let norm = normalize_extensions(&b("pdf, JPG , .png"));
    assert_eq!(norm, bs(&["pdf", "jpg", "png"]));
}

#[test]
fn normalize_drops_blank_entries() {
    assert_eq!(normalize_extensions(&b("")), bs(&[]));
    assert_eq!(normalize_extensions(&b("  ,  , ")), bs(&[]));
    assert_eq!(normalize_extensions(&b(",pdf,,")), bs(&["pdf"]));
}

#[test]
fn normalize_strips_all_leading_dots() {
    assert_eq!(normalize_extensions(&b(".tar.gz")), bs(&["tar.gz"]));
    assert_eq!(normalize_extensions(&b("..pdf")), bs(&["pdf"]));
}

#[test]
fn dots_only_filter_is_blank() {
    let filter = normalize_extensions(&b(".."));
    assert_eq!(filter, bs(&[]));
    assert!(is_eligible(&filter, None));
    assert!(is_eligible(&filter, Some(&b("pdf"))));
}

#[test]
fn renormalizing_a_stripped_dot_entry_is_stable() {
    let first = normalize_extensions(&b("..pdf"));
    assert_eq!(first, bs(&["pdf"]));
    let second = normalize_extensions(&first[0]);
    assert_eq!(second, first);
}

#[test]
fn normalize_is_idempotent_on_normal_forms() {
    let first = normalize_extensions(&b("pdf, JPG , png"));
    let mut joined: Vec<u8> = Vec::new();
    for (i, entry) in first.iter().enumerate() {
        if i > 0 {
            joined.push(b',');
        }
        joined.extend_from_slice(entry);
    }
    let second = normalize_extensions(&joined);
    assert_eq!(second, first);
}

#[test]
fn eligible_with_blank_filter() {
    let empty = normalize_extensions(&b(""));
    assert!(is_eligible(&empty, None));
    assert!(is_eligible(&empty, Some(&b("pdf"))));
    assert!(is_eligible(&empty, Some(&b("anything"))));
}

#[test]
fn eligible_compares_case_insensitively() {
    let filter = normalize_extensions(&b("pdf, JPG , .png"));
    assert!(is_eligible(&filter, Some(&b("PDF"))));
    assert!(is_eligible(&filter, Some(&b("png"))));
    assert!(!is_eligible(&filter, Some(&b("jpeg"))));
}

#[test]
fn extensionless_needs_blank_filter() {
    let filter = normalize_extensions(&b("pdf"));
    assert!(!is_eligible(&filter, None));
}

#[test]
fn split_name_basic() {
    let (stem, ext) = split_file_name(&b("report.pdf"));
    assert_eq!(stem, b("report"));
    assert_eq!(ext, Some(b("pdf")));
}

#[test]
fn split_name_dotfile_has_no_extension() {
    let (stem, ext) = split_file_name(&b(".bashrc"));
    assert_eq!(stem, b(".bashrc"));
    assert_eq!(ext, None);
}

#[test]
fn split_name_without_dot() {
    let (stem, ext) = split_file_name(&b("README"));
    assert_eq!(stem, b("README"));
    assert_eq!(ext, None);
}

#[test]
fn split_name_trailing_dot() {
    let (stem, ext) = split_file_name(&b("foo."));
    assert_eq!(stem, b("foo"));
    assert_eq!(ext, Some(b("")));
}

#[test]
fn split_name_multiple_dots() {
    let (stem, ext) = split_file_name(&b("archive.tar.gz"));
    assert_eq!(stem, b("archive.tar"));
    assert_eq!(ext, Some(b("gz")));
}

#[test]
fn candidate_zero_is_the_name_itself() {
    assert_eq!(candidate_name(&b("a.txt"), 0), b("a.txt"));
}

#[test]
fn candidate_carries_counter_suffix() {
    assert_eq!(candidate_name(&b("a.txt"), 3), b("a_3.txt"));
    assert_eq!(candidate_name(&b("notes"), 12), b("notes_12"));
    assert_eq!(candidate_name(&b(".bashrc"), 1), b(".bashrc_1"));
}

#[test]
fn candidate_for_trailing_dot_name() {
    // "foo." has the empty extension, so the suffixed form keeps the dot.
    assert_eq!(candidate_name(&b("foo."), 1), b("foo_1."));
}

#[test]
fn decimal_rendering_of_largest_counter() {
    assert_eq!(u64_to_decimal(u64::MAX), b("18446744073709551615"));
}

#[test]
fn decimal_rendering() {
    assert_eq!(u64_to_decimal(0), b("0"));
    assert_eq!(u64_to_decimal(7), b("7"));
    assert_eq!(u64_to_decimal(10), b("10"));
    assert_eq!(u64_to_decimal(907), b("907"));
}

#[test]
fn resolve_picks_smallest_free_counter() {
    let r = resolve_destination(&b("a.txt"), &vec![true, true, false, false]);
    let (counter, name) = r.expect("a free candidate was observed");
    assert_eq!(counter, 2);
    assert_eq!(name, b("a_2.txt"));
}

#[test]
fn resolve_uses_original_name_when_free() {
    let r = resolve_destination(&b("a.txt"), &vec![false]);
    let (counter, name) = r.expect("a free candidate was observed");
    assert_eq!(counter, 0);
    assert_eq!(name, b("a.txt"));
}

#[test]
fn resolve_reports_exhausted_probes() {
    assert!(resolve_destination(&b("a.txt"), &vec![true, true]).is_none());
}

#[test]
fn probe_walks_candidates_in_order() {
    let mut probe = Probe::new(b("a.txt"));
    assert_eq!(probe.candidate(), b("a.txt"));
    probe.advance();
    assert_eq!(probe.candidate(), b("a_1.txt"));
    probe.advance();
    assert_eq!(probe.candidate(), b("a_2.txt"));
}
