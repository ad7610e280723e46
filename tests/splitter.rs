use file_split_to_directory::order::sort_entries;
use file_split_to_directory::partition::partition;
use file_split_to_directory::{
    destination_action, Chunk, DestinationAction, Entry, FileSplitToDirectoryBuilder,
    NaturalOrder, SplitError, DEFAULT_CHUNK,
};
use std::cmp::Ordering;

fn tmp_files(howmany: usize) -> Vec<Entry> {
    (0..howmany).map(|i| Entry::new(format!("{i}.tmp"), true)).collect()
}

fn names(v: &[&str]) -> Vec<String> {
    v.iter().map(|s| s.to_string()).collect()
}

#[test]
fn test_default() {
    assert!(FileSplitToDirectoryBuilder::default().build().is_err());
}

#[test]
fn test_default_directory_name() {
    let mut v: usize = 0x9e37_79b9;
    for _ in 0..100 {
        v = v.wrapping_mul(6364136223846793005).wrapping_add(1442695040888963407);
        assert_eq!(
            FileSplitToDirectoryBuilder::default_directory_name(v),
            v.to_string()
        );
    }
}

#[test]
fn test_with_path() {
    let path = "/some/where/else".to_string();
    let builder = FileSplitToDirectoryBuilder::default().with_path(path.clone());
    assert_eq!(builder.path, Some(path));
}

#[test]
fn test_with_chunk() {
    let chunk: usize = 137;
    let builder = FileSplitToDirectoryBuilder::default().with_chunk(chunk);
    assert_eq!(builder.chunk, chunk);
}

#[test]
fn test_with_sort_cmp() {
    let plan = FileSplitToDirectoryBuilder::default()
        .with_path("root".to_string())
        .with_chunk(2)
        .with_sort_cmp(|a: &Entry, b: &Entry| a.name.cmp(&b.name).reverse())
        .build()
        .unwrap()
        .plan(tmp_files(4));
    assert_eq!(plan.len(), 2);
    let first_directory_files = &plan[0].files;
    assert!(first_directory_files.contains(&"2.tmp".to_string()));
    assert!(first_directory_files.contains(&"3.tmp".to_string()));
    let second_directory_files = &plan[1].files;
    assert!(second_directory_files.contains(&"0.tmp".to_string()));
    assert!(second_directory_files.contains(&"1.tmp".to_string()));
}

#[test]
fn test_with_directory_name() {
    let plan = FileSplitToDirectoryBuilder::default()
        .with_path("root".to_string())
        .with_chunk(2)
        .with_directory_name(|i: usize| (('a' as u8 + i as u8) as char).to_string())
        .build()
        .unwrap()
        .plan(tmp_files(4));
    let r: Vec<String> = plan.iter().map(|c| c.directory.clone()).collect();
    assert!(r.contains(&"a".to_string()));
    assert!(r.contains(&"b".to_string()));
    assert_eq!(r, names(&["a", "b"]));
}

#[test]
fn test_execute_default() {
    let plan = FileSplitToDirectoryBuilder::default()
        .with_path("root".to_string())
        .with_chunk(2)
        .build()
        .unwrap()
        .plan(tmp_files(4));
    let r: Vec<String> = plan.iter().map(|c| c.directory.clone()).collect();
    assert!(r.contains(&"0".to_string()));
    assert!(r.contains(&"1".to_string()));
    let first_directory_files = &plan[0].files;
    assert!(first_directory_files.contains(&"0.tmp".to_string()));
    assert!(first_directory_files.contains(&"1.tmp".to_string()));
    let second_directory_files = &plan[1].files;
    assert!(second_directory_files.contains(&"2.tmp".to_string()));
    assert!(second_directory_files.contains(&"3.tmp".to_string()));
}

#[test]
fn default_builder_settings() {
    let b = FileSplitToDirectoryBuilder::default();
    assert_eq!(b.path, None);
    assert_eq!(b.chunk, DEFAULT_CHUNK);
    assert_eq!(DEFAULT_CHUNK, 4400);
}

#[test]
fn build_refuses_zero_chunk() {
    let r = FileSplitToDirectoryBuilder::default()
        .with_path("root".to_string())
        .with_chunk(0)
        .build();
    assert!(matches!(r, Err(SplitError::InvalidConfiguration)));
}

#[test]
fn build_without_root_is_invalid_configuration() {
    let r = FileSplitToDirectoryBuilder::default().with_chunk(3).build();
    assert!(matches!(r, Err(SplitError::InvalidConfiguration)));
}

#[test]
fn build_keeps_settings() {
    let op = FileSplitToDirectoryBuilder::default()
        .with_path("/data/flat".to_string())
        .with_chunk(7)
        .build()
        .unwrap();
    assert_eq!(op.path(), "/data/flat");
    assert_eq!(op.chunk(), 7);
}

#[test]
fn natural_order_is_numeric_aware() {
    let entries = vec![
        Entry::new("2.tmp".to_string(), true),
        Entry::new("10.tmp".to_string(), true),
        Entry::new("1.tmp".to_string(), true),
    ];
    let sorted = sort_entries(entries, &NaturalOrder);
    let got: Vec<String> = sorted.into_iter().map(|e| e.name).collect();
    assert_eq!(got, names(&["1.tmp", "2.tmp", "10.tmp"]));
}

#[test]
fn default_sort_cmp_values() {
    let a = Entry::new("2.tmp".to_string(), true);
    let b = Entry::new("10.tmp".to_string(), true);
    assert_eq!(FileSplitToDirectoryBuilder::default_sort_cmp(&a, &b), Ordering::Less);
    assert_eq!(FileSplitToDirectoryBuilder::default_sort_cmp(&b, &a), Ordering::Greater);
    assert_eq!(FileSplitToDirectoryBuilder::default_sort_cmp(&a, &a), Ordering::Equal);
}

#[test]
fn default_directory_name_edges() {
    assert_eq!(FileSplitToDirectoryBuilder::default_directory_name(0), "0");
    assert_eq!(FileSplitToDirectoryBuilder::default_directory_name(100), "100");
    assert_eq!(
        FileSplitToDirectoryBuilder::default_directory_name(usize::MAX),
        usize::MAX.to_string()
    );
}

#[test]
fn plan_of_natural_names_in_ten_files() {
    let plan = FileSplitToDirectoryBuilder::default()
        .with_path("root".to_string())
        .with_chunk(4)
        .build()
        .unwrap()
        .plan(tmp_files(10));
    assert_eq!(plan.len(), 3);
    assert_eq!(plan[0].files, names(&["0.tmp", "1.tmp", "2.tmp", "3.tmp"]));
    assert_eq!(plan[1].files, names(&["4.tmp", "5.tmp", "6.tmp", "7.tmp"]));
    assert_eq!(plan[2].files, names(&["8.tmp", "9.tmp"]));
    assert_eq!(plan[2].directory, "2");
}

#[test]
fn directory_count_is_ceiling() {
    for (n, c, expected) in [(0usize, 3usize, 0usize), (1, 3, 1), (3, 3, 1), (4, 3, 2), (9, 2, 5), (5, 1, 5)] {
        let plan = FileSplitToDirectoryBuilder::default()
            .with_path("root".to_string())
            .with_chunk(c)
            .build()
            .unwrap()
            .plan(tmp_files(n));
        assert_eq!(plan.len(), expected);
        let total: usize = plan.iter().map(|ch: &Chunk| ch.files.len()).sum();
        assert_eq!(total, n);
        assert!(plan.iter().all(|ch| !ch.files.is_empty() && ch.files.len() <= c));
    }
}

#[test]
fn every_file_planned_once() {
    let plan = FileSplitToDirectoryBuilder::default()
        .with_path("root".to_string())
        .with_chunk(3)
        .build()
        .unwrap()
        .plan(tmp_files(8));
    let mut all: Vec<String> = plan.iter().flat_map(|c| c.files.clone()).collect();
    all.sort();
    let mut expected: Vec<String> = (0..8).map(|i| format!("{i}.tmp")).collect();
    expected.sort();
    assert_eq!(all, expected);
}

#[test]
fn plan_is_reproducible() {
    let op = FileSplitToDirectoryBuilder::default()
        .with_path("root".to_string())
        .with_chunk(2)
        .build()
        .unwrap();
    let mut listing = tmp_files(5);
    let first = op.plan(listing.clone());
    listing.reverse();
    let second = op.plan(listing);
    assert_eq!(first.len(), second.len());
    for (a, b) in first.iter().zip(second.iter()) {
        assert_eq!(a.directory, b.directory);
        assert_eq!(a.files, b.files);
    }
}

#[test]
fn non_regular_entries_are_left_out() {
    let listing = vec![
        Entry::new("0.tmp".to_string(), true),
        Entry::new("sub".to_string(), false),
        Entry::new("1.tmp".to_string(), true),
        Entry::new("link".to_string(), false),
    ];
    let plan = FileSplitToDirectoryBuilder::default()
        .with_path("root".to_string())
        .with_chunk(10)
        .build()
        .unwrap()
        .plan(listing);
    assert_eq!(plan.len(), 1);
    assert_eq!(plan[0].files, names(&["0.tmp", "1.tmp"]));
}

#[test]
fn empty_listing_plans_nothing() {
    let plan = FileSplitToDirectoryBuilder::default()
        .with_path("root".to_string())
        .with_chunk(2)
        .build()
        .unwrap()
        .plan(vec![Entry::new("only_a_dir".to_string(), false)]);
    assert!(plan.is_empty());
}

#[test]
fn partition_cuts_in_order() {
    let items = names(&["a", "b", "c", "d", "e"]);
    let r = partition(&items, 2);
    assert_eq!(r, vec![names(&["a", "b"]), names(&["c", "d"]), names(&["e"])]);
    assert!(partition(&Vec::new(), 4).is_empty());
    assert_eq!(partition(&items, 5), vec![items.clone()]);
}

#[test]
fn destination_actions() {
    assert_eq!(destination_action(false, false, "r/0".to_string()), Ok(DestinationAction::Create));
    assert_eq!(destination_action(true, true, "r/0".to_string()), Ok(DestinationAction::Reuse));
    assert_eq!(
        destination_action(true, false, "r/0".to_string()),
        Err(SplitError::DestinationConflict { path: "r/0".to_string() })
    );
}

#[test]
fn ties_keep_listing_order() {
    let listing = vec![
        Entry::new("b".to_string(), true),
        Entry::new("a".to_string(), true),
        Entry::new("c".to_string(), true),
    ];
    let plan = FileSplitToDirectoryBuilder::default()
        .with_path("root".to_string())
        .with_chunk(2)
        .with_sort_cmp(|_: &Entry, _: &Entry| Ordering::Equal)
        .build()
        .unwrap()
        .plan(listing);
    assert_eq!(plan[0].files, names(&["b", "a"]));
    assert_eq!(plan[1].files, names(&["c"]));
}

#[test]
fn sort_by_size_then_name() {
    let listing = vec![
        Entry::with_metadata("big".to_string(), true, 300, Some(1)),
        Entry::with_metadata("small".to_string(), true, 10, Some(3)),
        Entry::with_metadata("mid".to_string(), true, 20, None),
        Entry::with_metadata("dir".to_string(), false, 1, None),
    ];
    let plan = FileSplitToDirectoryBuilder::default()
        .with_path("root".to_string())
        .with_chunk(2)
        .with_sort_cmp(|a: &Entry, b: &Entry| a.size.cmp(&b.size).then(a.name.cmp(&b.name)))
        .build()
        .unwrap()
        .plan(listing);
    assert_eq!(plan.len(), 2);
    assert_eq!(plan[0].files, names(&["small", "mid"]));
    assert_eq!(plan[1].files, names(&["big"]));
}
