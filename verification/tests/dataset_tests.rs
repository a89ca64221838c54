use warm_ml::dataset::{take_at, WarmDatasetFileData, WarmMLDataset};
use warm_ml::http_request::HttpRequest;
use warm_ml::sample_array::RequestArray;

fn requests(uris: &[&str]) -> RequestArray {
    RequestArray::from_vec(uris.iter().map(|u| HttpRequest::get(u)).collect())
}

fn uris(a: &RequestArray) -> Vec<String> {
    (0..a.len()).map(|i| a.get(i).uri.clone()).collect()
}

fn sample_dataset() -> WarmMLDataset {
    WarmMLDataset::builder()
        .add_plain("legit a", requests(&["/a1", "/a2", "/a3"]), false)
        .add_plain("mal b", requests(&["/b1"]), true)
        .add_plain("legit c", requests(&["/c1"]), false)
        .add_plain("mal d", requests(&["/d1", "/d2"]), true)
        .build()
}

#[test]
fn request_array_holds_its_elements() {
    let a = requests(&["/x", "/y"]);
    assert_eq!(a.len(), 2);
    assert_eq!(a.get(1).uri, "/y");
    assert_eq!(requests(&[]).len(), 0);
}

#[test]
fn file_data_getters() {
    let f = WarmDatasetFileData::new("data/f.json".to_string(), "f".to_string(), requests(&["/1", "/2"]));
    assert_eq!(f.get_file_path(), "data/f.json");
    assert_eq!(f.get_id(), "f");
    assert_eq!(f.get_samples().len(), 2);
    assert_eq!(f.samples_len(), 2);
}

#[test]
fn build_orders_files_by_size_keeping_ties_in_order() {
    let d = sample_dataset();
    let order: Vec<(String, bool)> = d
        .get_files_samples()
        .iter()
        .map(|(f, l)| (f.get_id().to_string(), *l))
        .collect();
    assert_eq!(
        order,
        vec![
            ("mal b".to_string(), true),
            ("legit c".to_string(), false),
            ("mal d".to_string(), true),
            ("legit a".to_string(), false),
        ]
    );
    assert_eq!(d.get_files_samples()[0].0.get_file_path(), "(plain data)");
}

#[test]
fn samples_and_labels_follow_the_files() {
    let d = sample_dataset();
    assert_eq!(d.get_samples_len(), 7);
    let samples: Vec<String> = d.get_samples().iter().map(|r| r.uri.clone()).collect();
    assert_eq!(samples, vec!["/b1", "/c1", "/d1", "/d2", "/a1", "/a2", "/a3"]);
    assert_eq!(d.get_labels(), vec![true, false, true, true, false, false, false]);
    assert_eq!(d.class_totals(), (3, 4, 2, 2));
}

#[test]
fn empty_dataset() {
    let d = WarmMLDataset::default();
    assert_eq!(d.get_samples_len(), 0);
    assert!(d.get_samples().is_empty());
    assert!(d.get_labels().is_empty());
    assert_eq!(d.class_totals(), (0, 0, 0, 0));
    assert!(WarmMLDataset::builder().build().get_files_samples().is_empty());
}

#[test]
fn quota_selection_takes_shares_in_file_order() {
    let d = WarmMLDataset::builder()
        .add_plain("m1", requests(&["/m1a"]), true)
        .add_plain("l1", requests(&["/l1a", "/l1b"]), false)
        .add_plain("m2", requests(&["/m2a", "/m2b", "/m2c", "/m2d"]), true)
        .add_plain("l2", requests(&["/l2a", "/l2b", "/l2c", "/l2d", "/l2e"]), false)
        .build();
    // Files after build: m1 (1), l1 (2), m2 (4), l2 (5).
    // Malicious: quota 4, first share 2: m1 gives 1, then 3 remain for 1 file: m2 gives 3.
    // Legitimate: quota 3, first share 1: l1 gives 1, then 2 remain for 1 file: l2 gives 2.
    let r = d.select_samples_by_quota(4, 3, 2, 1, 15);
    let files = r.get_files_samples();
    assert_eq!(files.len(), 4);
    let sizes: Vec<usize> = files.iter().map(|(f, _)| f.samples_len()).collect();
    assert_eq!(sizes, vec![1, 1, 3, 2]);
    let labels: Vec<bool> = files.iter().map(|(_, l)| *l).collect();
    assert_eq!(labels, vec![true, false, true, false]);
    let ids: Vec<&str> = files.iter().map(|(f, _)| f.get_id()).collect();
    assert_eq!(ids, vec!["m1", "l1", "m2", "l2"]);
    // Each file keeps distinct samples of its own.
    assert_distinct_members(&uris(files[2].0.get_samples()), &["/m2a", "/m2b", "/m2c", "/m2d"]);
    assert_distinct_members(&uris(files[3].0.get_samples()), &["/l2a", "/l2b", "/l2c", "/l2d", "/l2e"]);
    assert_eq!(uris(files[0].0.get_samples()), vec!["/m1a"]);
}

fn assert_distinct_members(selected: &[String], file: &[&str]) {
    for (k, s) in selected.iter().enumerate() {
        assert!(file.contains(&s.as_str()));
        assert!(!selected[..k].contains(s));
    }
}

#[test]
fn selection_draws_from_the_whole_file() {
    let all = ["/0", "/1", "/2", "/3", "/4", "/5", "/6", "/7", "/8", "/9"];
    let d = WarmMLDataset::builder().add_plain("m", requests(&all), true).build();
    let mut beyond_first = false;
    for seed in 0..20u64 {
        let r = d.select_samples_by_quota(2, 0, 2, 0, seed);
        let picked = uris(r.get_files_samples()[0].0.get_samples());
        assert_eq!(picked.len(), 2);
        assert_distinct_members(&picked, &all);
        if picked.iter().any(|u| u != "/0" && u != "/1") {
            beyond_first = true;
        }
    }
    assert!(beyond_first);
}

#[test]
fn zero_quota_selects_nothing() {
    let d = sample_dataset();
    let r = d.select_samples_by_quota(0, 0, 0, 0, 1);
    assert_eq!(r.get_files_samples().len(), 4);
    assert_eq!(r.get_samples_len(), 0);
}

#[test]
fn same_seed_same_selection() {
    let d = WarmMLDataset::builder()
        .add_plain("m", requests(&["/1", "/2", "/3", "/4", "/5", "/6"]), true)
        .build();
    let a = d.select_samples_by_quota(5, 0, 5, 0, 42);
    let b = d.select_samples_by_quota(5, 0, 5, 0, 42);
    assert_eq!(uris(a.get_files_samples()[0].0.get_samples()), uris(b.get_files_samples()[0].0.get_samples()));
    let s = uris(a.get_files_samples()[0].0.get_samples());
    assert_eq!(s.len(), 5);
    assert_distinct_members(&s, &["/1", "/2", "/3", "/4", "/5", "/6"]);
}

#[test]
fn even_shares_meet_the_quota_exactly() {
    let d = WarmMLDataset::builder()
        .add_plain("m2", requests(&["/a", "/b", "/c", "/d"]), true)
        .add_plain("m1", requests(&["/e"]), true)
        .add_plain("m3", requests(&["/f", "/g"]), true)
        .add_plain("l1", requests(&["/h", "/i", "/j"]), false)
        .build();
    let class_total = |r: &WarmMLDataset, label: bool| -> usize {
        r.get_files_samples().iter().filter(|(_, l)| *l == label).map(|(f, _)| f.samples_len()).sum()
    };
    // Malicious: 3 files with 7 samples. Quota 5, first share 5 / 3 = 1.
    let r = d.select_samples_by_quota(5, 2, 1, 2, 3);
    assert_eq!(class_total(&r, true), 5);
    assert_eq!(class_total(&r, false), 2);
    // A quota above the class's samples takes them all.
    let r = d.select_samples_by_quota(10, 9, 3, 9, 3);
    assert_eq!(class_total(&r, true), 7);
    assert_eq!(class_total(&r, false), 3);
}

#[test]
fn take_at_copies_the_given_positions() {
    let samples = requests(&["/a", "/b", "/c"]);
    let taken = take_at(&samples, &vec![2, 0, 1], 2);
    assert_eq!(taken.iter().map(|r| r.uri.clone()).collect::<Vec<String>>(), vec!["/c", "/a"]);
    assert!(take_at(&samples, &vec![1], 0).is_empty());
}
