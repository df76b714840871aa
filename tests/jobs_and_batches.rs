use ocr_throughput::batch_file::{parse_batch, render_batch};
use ocr_throughput::jobs::{is_job_path, select_jobs, IMAGE_EXTENSION};
use ocr_throughput::partition::partition;

fn names(list: &[&str]) -> Vec<String> {
    list.iter().map(|s| s.to_string()).collect()
}

fn jobs(n: usize) -> Vec<String> {
    (0..n).map(|i| format!("images/{}.jpg", i)).collect()
}

fn sizes(chunks: &Vec<Vec<String>>) -> Vec<usize> {
    chunks.iter().map(|c| c.len()).collect()
}

#[test]
fn job_paths_by_extension() {
    assert!(is_job_path("images/a.jpg", IMAGE_EXTENSION));
    assert!(is_job_path("images/a.b.jpg", IMAGE_EXTENSION));
    assert!(is_job_path("a..jpg", IMAGE_EXTENSION));
    assert!(!is_job_path("images/.jpg", IMAGE_EXTENSION));
    assert!(!is_job_path(".jpg", IMAGE_EXTENSION));
    assert!(!is_job_path("images/a.JPG", IMAGE_EXTENSION));
    assert!(!is_job_path("images/a.png", IMAGE_EXTENSION));
    assert!(!is_job_path("images/ajpg", IMAGE_EXTENSION));
    assert!(!is_job_path("images/a.jpg.txt", IMAGE_EXTENSION));
    assert!(!is_job_path("a.jpg/b", IMAGE_EXTENSION));
    assert!(!is_job_path("", IMAGE_EXTENSION));
    assert!(!is_job_path("a.tar.gz", "tar.gz"));
}

#[test]
fn selection_counts_only_matching_entries() {
    let entries = names(&[
        "images/a.jpg",
        "images/notes.txt",
        "images/b.jpg",
        "images/.jpg",
        "images/c.png",
        "images/d.jpg",
    ]);
    let selected = select_jobs(&entries, IMAGE_EXTENSION);
    assert_eq!(selected, names(&["images/a.jpg", "images/b.jpg", "images/d.jpg"]));
    let only_jobs = names(&["images/a.jpg", "images/b.jpg", "images/d.jpg"]);
    assert_eq!(select_jobs(&only_jobs, IMAGE_EXTENSION).len(), 3);
}

#[test]
fn selection_of_empty_directory_is_empty() {
    assert!(select_jobs(&Vec::new(), IMAGE_EXTENSION).is_empty());
}

#[test]
fn twelve_jobs_in_three_batches() {
    let j = jobs(12);
    let chunks = partition(&j, 3);
    assert_eq!(sizes(&chunks), vec![4, 4, 4]);
    assert_eq!(chunks[1][0], "images/4.jpg");
    assert_eq!(chunks.concat(), j);
}

#[test]
fn last_batch_holds_remainder() {
    let j = jobs(10);
    let chunks = partition(&j, 4);
    assert_eq!(sizes(&chunks), vec![3, 3, 3, 1]);
    assert_eq!(chunks.concat(), j);
    assert_eq!(sizes(&partition(&jobs(9), 4)), vec![3, 3, 3]);
}

#[test]
fn fewer_jobs_than_batches() {
    let j = jobs(2);
    let chunks = partition(&j, 5);
    assert_eq!(sizes(&chunks), vec![1, 1]);
    assert_eq!(chunks.concat(), j);
}

#[test]
fn no_jobs_no_batches() {
    assert!(partition(&Vec::new(), 3).is_empty());
}

#[test]
fn one_batch_holds_everything() {
    let j = jobs(7);
    let chunks = partition(&j, 1);
    assert_eq!(chunks, vec![j]);
}

#[test]
fn batch_file_round_trip() {
    let jobs: Vec<Vec<u8>> = vec![b"images/a.jpg".to_vec(), b"images/b c.jpg".to_vec()];
    let text = render_batch(&jobs);
    assert_eq!(text, b"images/a.jpg\nimages/b c.jpg\n".to_vec());
    assert_eq!(parse_batch(&text), jobs);
}

#[test]
fn batch_file_skips_empty_lines_and_carriage_returns() {
    let text = b"a.jpg\r\n\n\r\nb.jpg\nc.jpg".to_vec();
    let parsed = parse_batch(&text);
    assert_eq!(parsed, vec![b"a.jpg".to_vec(), b"b.jpg".to_vec(), b"c.jpg".to_vec()]);
    assert!(parse_batch(&Vec::new()).is_empty());
    assert!(render_batch(&Vec::new()).is_empty());
}
