use treesize::filter::{FileFilter, FilterMode};
use treesize::measure::{measure, MeasureError};
use treesize::size::FileSizeInfo;
use treesize::tree::PathData;
use treesize::tree::Folder;
use treesize::walk::{assemble, expand, file_node, gather, Expansion, Found, WalkError};

fn names(list: &[&str]) -> Vec<String> {
    list.iter().map(|s| s.to_string()).collect()
}

#[test]
fn missing_path_is_not_found() {
    let outcome = expand("nowhere".to_string(), Found::Missing, &None);
    assert_eq!(outcome.err(), Some(WalkError::NotFound("nowhere".to_string())));
}

#[test]
fn file_becomes_a_leaf_with_its_measurement() {
    let content = b"some text some text some text".to_vec();
    let expected = measure(&content).unwrap();
    match expand("f.txt".to_string(), Found::File(content), &None).unwrap() {
        Expansion::Leaf(PathData::File { name, size }) => {
            assert_eq!(name, "f.txt");
            assert_eq!(size, expected);
        }
        other => panic!("not a file: {:?}", other),
    }
}

#[test]
fn directory_lists_its_entries_in_order() {
    let found = Found::Directory(names(&["d/b", "d/a", "d/c"]));
    match expand("d".to_string(), found, &None).unwrap() {
        Expansion::Branch { path, entries } => {
            assert_eq!(path, "d");
            assert_eq!(entries, names(&["d/b", "d/a", "d/c"]));
        }
        other => panic!("not a directory: {:?}", other),
    }
}

#[test]
fn directory_entries_pass_the_rule() {
    let rule = Some(FileFilter::new(FilterMode::Exclude, "**/*.log").unwrap());
    let found = Found::Directory(names(&["d/a.txt", "d/a.log"]));
    match expand("d".to_string(), found, &rule).unwrap() {
        Expansion::Branch { entries, .. } => assert_eq!(entries, names(&["d/a.txt"])),
        other => panic!("not a directory: {:?}", other),
    }
}

#[test]
fn root_is_never_asked_of_the_rule() {
    let rule = Some(FileFilter::new(FilterMode::Exclude, "*.log").unwrap());
    let outcome = expand("a.log".to_string(), Found::File(vec![1, 2, 3]), &rule).unwrap();
    assert!(matches!(outcome, Expansion::Leaf(_)));
    let listed = expand("b.log".to_string(), Found::Directory(Vec::new()), &rule).unwrap();
    assert!(matches!(listed, Expansion::Branch { .. }));
}

#[test]
fn directory_without_kept_entries_totals_zero() {
    let rule = Some(FileFilter::new(FilterMode::Include, "*.rs").unwrap());
    let found = Found::Directory(names(&["a.txt", "b.md"]));
    match expand("d".to_string(), found, &rule).unwrap() {
        Expansion::Branch { path, entries } => {
            assert!(entries.is_empty());
            let mut node = PathData::folder(path, Vec::new());
            assert_eq!(
                node.total_size(),
                Some(FileSizeInfo { uncompressed: 0, gzip: None, brotli: None })
            );
        }
        other => panic!("not a directory: {:?}", other),
    }
}

#[test]
fn unmeasured_file_fails_with_its_path() {
    let outcome = file_node("f".to_string(), Err(MeasureError::Brotli));
    assert_eq!(
        outcome.err(),
        Some(WalkError::Unmeasured { path: "f".to_string(), codec: MeasureError::Brotli })
    );
    let node = file_node(
        "f".to_string(),
        Ok(FileSizeInfo { uncompressed: 1, gzip: Some(2), brotli: Some(3) }),
    )
    .unwrap();
    assert_eq!(node.path(), "f");
}

#[test]
fn gathered_nodes_keep_the_listing_order() {
    let size = FileSizeInfo { uncompressed: 1, gzip: None, brotli: None };
    let walked = vec![
        Ok(PathData::file("b".to_string(), size)),
        Ok(PathData::file("a".to_string(), size)),
    ];
    let nodes = gather(walked).unwrap();
    let paths: Vec<&str> = nodes.iter().map(|n| n.path()).collect();
    assert_eq!(paths, vec!["b", "a"]);
    assert!(gather(Vec::new()).unwrap().is_empty());
}

#[test]
fn first_failed_entry_fails_the_directory() {
    let size = FileSizeInfo { uncompressed: 1, gzip: None, brotli: None };
    let walked = vec![
        Ok(PathData::file("a".to_string(), size)),
        Err(WalkError::NotFound("b".to_string())),
        Err(WalkError::NotFound("c".to_string())),
    ];
    assert_eq!(gather(walked).err(), Some(WalkError::NotFound("b".to_string())));
}

#[test]
fn walked_tree_adds_up() {
    let a = match expand("A/a.txt".to_string(), Found::File(vec![7; 10]), &None).unwrap() {
        Expansion::Leaf(node) => node,
        other => panic!("not a file: {:?}", other),
    };
    let b = match expand("A/b.txt".to_string(), Found::File(vec![9; 1000]), &None).unwrap() {
        Expansion::Leaf(node) => node,
        other => panic!("not a file: {:?}", other),
    };
    let (mut a, mut b) = (a, b);
    let size_a = a.total_size().unwrap();
    let size_b = b.total_size().unwrap();
    let mut dir = PathData::folder("A".to_string(), gather(vec![Ok(a), Ok(b)]).unwrap());
    let total = dir.total_size().unwrap();
    assert_eq!(total.uncompressed, 1010);
    assert_eq!(total.gzip, Some(size_a.gzip.unwrap() + size_b.gzip.unwrap()));
    assert_eq!(total.brotli, Some(size_a.brotli.unwrap() + size_b.brotli.unwrap()));
}

fn folder_of(node: PathData) -> Folder {
    match node {
        PathData::Folder(folder) => folder,
        other => panic!("not a directory: {:?}", other),
    }
}

#[test]
fn assembled_directory_has_no_total_yet() {
    let size = FileSizeInfo { uncompressed: 4, gzip: Some(24), brotli: Some(8) };
    let walked = vec![
        Ok(PathData::file("d/b".to_string(), size)),
        Ok(PathData::file("d/a".to_string(), size)),
    ];
    let mut dir = folder_of(assemble("d".to_string(), walked).unwrap());
    assert_eq!(dir.path(), "d");
    let paths: Vec<&str> = dir.files().iter().map(|n| n.path()).collect();
    assert_eq!(paths, vec!["d/b", "d/a"]);
    assert_eq!(dir.cached_total(), None);
    assert_eq!(
        dir.total_size(),
        Some(FileSizeInfo { uncompressed: 8, gzip: Some(48), brotli: Some(16) })
    );
}

#[test]
fn directory_with_a_failed_entry_is_not_assembled() {
    let size = FileSizeInfo { uncompressed: 4, gzip: None, brotli: None };
    let walked = vec![
        Ok(PathData::file("d/a".to_string(), size)),
        Err(WalkError::Unmeasured { path: "d/b".to_string(), codec: MeasureError::Gzip }),
    ];
    assert_eq!(
        assemble("d".to_string(), walked).err(),
        Some(WalkError::Unmeasured { path: "d/b".to_string(), codec: MeasureError::Gzip })
    );
}
