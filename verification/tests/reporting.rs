use treesize::report::{file_size_to_string, rank_by_size, SizeReport};
use treesize::size::FileSizeInfo;

#[test]
fn smaller_root_is_named_first_and_the_other_is_three_times_larger() {
    let sizes = vec![100usize, 300];
    let order = rank_by_size(&sizes);
    assert_eq!(order, vec![0, 1]);
    let smallest = sizes[order[0]];
    let other = sizes[order[1]];
    assert_eq!(smallest, 100);
    let scale = other as f64 / smallest as f64;
    assert_eq!(format!("{:.2} times larger", scale), "3.00 times larger");
}

#[test]
fn ranking_goes_from_smallest_to_largest() {
    assert_eq!(rank_by_size(&vec![300, 100]), vec![1, 0]);
    assert_eq!(rank_by_size(&vec![5, 3, 9, 1, 7]), vec![3, 1, 0, 4, 2]);
    assert_eq!(rank_by_size(&vec![42]), vec![0]);
    assert_eq!(rank_by_size(&Vec::new()), Vec::<usize>::new());
}

#[test]
fn equal_sizes_keep_the_order_given() {
    assert_eq!(rank_by_size(&vec![2, 1, 2, 1, 2]), vec![1, 3, 0, 2, 4]);
}

#[test]
fn sizes_are_written_in_decimal_units() {
    assert_eq!(file_size_to_string(0), "0 B");
    assert_eq!(file_size_to_string(999), "999 B");
    assert_eq!(file_size_to_string(1000), "1 KB");
    assert_eq!(file_size_to_string(1010), "1.01 KB");
    assert_eq!(file_size_to_string(1023), "1.02 KB");
    assert_eq!(file_size_to_string(1_500_000), "1.50 MB");
}

#[test]
fn report_has_a_text_for_each_size() {
    let full = FileSizeInfo { uncompressed: 1010, gzip: Some(430), brotli: Some(375) };
    assert_eq!(
        full.display(),
        SizeReport {
            uncompressed: "1.01 KB".to_string(),
            gzip: Some("430 B".to_string()),
            brotli: Some("375 B".to_string()),
        }
    );
    let bare = FileSizeInfo { uncompressed: 5, gzip: None, brotli: None };
    assert_eq!(
        bare.display(),
        SizeReport { uncompressed: "5 B".to_string(), gzip: None, brotli: None }
    );
}
