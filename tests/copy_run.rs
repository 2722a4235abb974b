use mtp_copy::file_type::MtpFileType;
use mtp_copy::mtp_file::MtpFile;
use mtp_copy::paths::{build_path, RefDate};
use mtp_copy::run::{CopyOutcome, CopyRun, RunStep};
use mtp_copy::transfer::{decide_transfer, TransferAction};

fn file(name: &str, t: MtpFileType, size: u64, object: usize) -> MtpFile {
    MtpFile { name: name.to_string(), path: format!("DCIM/{}", name), file_type: t, size, object }
}

fn date() -> RefDate {
    RefDate::new(2023, 12, 28).unwrap()
}

fn three_files() -> Vec<MtpFile> {
    vec![
        file("a.jpg", MtpFileType::Image, 10, 0),
        file("b.jpg", MtpFileType::Image, 20, 1),
        file("c.jpg", MtpFileType::Image, 30, 2),
    ]
}

/// Drives a run, answering each file with the outcome that `answer` gives
/// for its name; returns the names tried and the last step.
fn drive(run: &mut CopyRun, answer: impl Fn(&str) -> CopyOutcome) -> (Vec<String>, RunStep) {
    let mut tried = vec![];
    let mut last = RunStep::Continue;
    while let Some(i) = run.next_index() {
        let name = run.file(i).name.clone();
        tried.push(name.clone());
        last = run.record(answer(&name));
        if last == RunStep::Abort {
            break;
        }
    }
    (tried, last)
}

#[test]
fn valid_and_invalid_dates() {
    assert!(RefDate::new(2024, 2, 29).is_some());
    assert!(RefDate::new(2023, 2, 29).is_none());
    assert!(RefDate::new(2000, 2, 29).is_some());
    assert!(RefDate::new(1900, 2, 29).is_none());
    assert!(RefDate::new(2023, 4, 31).is_none());
    assert!(RefDate::new(2023, 13, 1).is_none());
    assert!(RefDate::new(2023, 1, 0).is_none());
    assert!(RefDate::new(400000, 1, 1).is_none());
}

#[test]
fn date_texts() {
    let d = date();
    assert_eq!(d.iso_text(), "2023-12-28");
    assert_eq!(d.year_text(), "2023");
    let early = RefDate::new(987, 3, 4).unwrap();
    assert_eq!(early.iso_text(), "0987-03-04");
    assert_eq!(early.year_text(), "0987");
}

#[test]
fn path_with_album() {
    let f = file("IMG_1.jpg", MtpFileType::Image, 1, 0);
    let p = build_path("/home/user/Pictures", &f, &date(), Some("New Years Eve"));
    assert_eq!(p, "/home/user/Pictures/Out-of-camera/2023/2023-12-28 New Years Eve/IMG_1.jpg");
}

#[test]
fn path_without_album() {
    let f = file("DSC_1.NEF", MtpFileType::RawImage, 1, 0);
    let p = build_path("out", &f, &date(), None);
    assert_eq!(p, "out/Undeveloped/2023/2023-12-28/DSC_1.NEF");
    let v = file("v.mp4", MtpFileType::Video, 1, 0);
    assert_eq!(build_path("out", &v, &date(), None), "out/Video/2023/2023-12-28/v.mp4");
}

#[test]
fn path_is_deterministic() {
    let f = file("x.png", MtpFileType::Image, 1, 0);
    let a = build_path("root", &f, &date(), Some("Trip"));
    let b = build_path("root", &f, &date(), Some("Trip"));
    assert_eq!(a, b);
}

#[test]
fn skip_only_on_equal_size() {
    assert_eq!(decide_transfer(20, Some(20)), TransferAction::Skip);
    assert_eq!(decide_transfer(20, Some(19)), TransferAction::Copy);
    assert_eq!(decide_transfer(20, Some(0)), TransferAction::Copy);
    assert_eq!(decide_transfer(20, None), TransferAction::Copy);
    assert_eq!(decide_transfer(0, Some(0)), TransferAction::Skip);
}

#[test]
fn destinations_of_a_run() {
    let files = vec![
        file("v.mov", MtpFileType::Video, 1, 0),
        file("p.jpg", MtpFileType::Image, 1, 1),
    ];
    let run = CopyRun::new(files, "T".to_string(), date(), Some("Album".to_string()), false);
    assert_eq!(run.len(), 2);
    assert_eq!(run.file(0).name, "p.jpg");
    assert_eq!(run.destination(0), "T/Out-of-camera/2023/2023-12-28 Album/p.jpg");
    assert_eq!(run.destination(1), "T/Video/2023/2023-12-28 Album/v.mov");
}

#[test]
fn scenario_all_copied() {
    let mut run = CopyRun::new(three_files(), "T".to_string(), date(), None, false);
    let (tried, last) = drive(&mut run, |_| CopyOutcome::Copied);
    assert_eq!(tried, vec!["a.jpg", "b.jpg", "c.jpg"]);
    assert_eq!(last, RunStep::Continue);
    let s = run.into_stats();
    assert_eq!(s.total_files, 3);
    assert_eq!(s.copied_files, 3);
    assert_eq!(s.skipped_files, 0);
    assert_eq!(s.copied_size, 60);
    assert_eq!(s.original_size, 60);
    assert_eq!(s.remaining_size, 60);
    assert!(s.errored_files.is_empty());
}

#[test]
fn scenario_one_skipped() {
    let mut run = CopyRun::new(three_files(), "T".to_string(), date(), None, false);
    let (_, last) = drive(&mut run, |name| {
        let existing = if name == "b.jpg" { Some(20) } else { None };
        let size = if name == "a.jpg" { 10 } else if name == "b.jpg" { 20 } else { 30 };
        match decide_transfer(size, existing) {
            TransferAction::Skip => CopyOutcome::Skipped,
            TransferAction::Copy => CopyOutcome::Copied,
        }
    });
    assert_eq!(last, RunStep::Continue);
    let s = run.into_stats();
    assert_eq!(s.copied_files, 2);
    assert_eq!(s.skipped_files, 1);
    assert_eq!(s.copied_size, 40);
    assert_eq!(s.remaining_size, 40);
    assert_eq!(s.original_size, 60);
}

#[test]
fn scenario_error_keep_going() {
    let mut run = CopyRun::new(three_files(), "T".to_string(), date(), None, true);
    let (tried, last) = drive(&mut run, |name| {
        if name == "b.jpg" { CopyOutcome::Errored("device gone".to_string()) } else { CopyOutcome::Copied }
    });
    assert_eq!(tried.len(), 3);
    assert_eq!(last, RunStep::Continue);
    assert_eq!(run.next_index(), None);
    let s = run.into_stats();
    assert_eq!(s.copied_files, 2);
    assert_eq!(s.errored_files, vec!["b.jpg".to_string()]);
    assert_eq!(s.copied_size, 40);
    assert_eq!(s.remaining_size, 40);
}

#[test]
fn scenario_error_stops_run() {
    let mut run = CopyRun::new(three_files(), "T".to_string(), date(), None, false);
    let (tried, last) = drive(&mut run, |name| {
        if name == "b.jpg" { CopyOutcome::Errored("device gone".to_string()) } else { CopyOutcome::Copied }
    });
    assert_eq!(tried, vec!["a.jpg", "b.jpg"]);
    assert_eq!(last, RunStep::Abort);
    assert_eq!(run.next_index(), None);
    let s = run.stats();
    assert_eq!(s.copied_files, 1);
    assert_eq!(s.copied_size, 10);
    assert_eq!(s.errored_files, vec!["b.jpg".to_string()]);
}

#[test]
fn remaining_size_same_whatever_the_order() {
    let answers_a = |name: &str| match name {
        "a.jpg" => CopyOutcome::Skipped,
        "b.jpg" => CopyOutcome::Errored("x".to_string()),
        _ => CopyOutcome::Copied,
    };
    let answers_b = |name: &str| match name {
        "a.jpg" => CopyOutcome::Errored("x".to_string()),
        "b.jpg" => CopyOutcome::Skipped,
        _ => CopyOutcome::Copied,
    };
    let mut ra = CopyRun::new(three_files(), "T".to_string(), date(), None, true);
    let mut rb = CopyRun::new(three_files(), "T".to_string(), date(), None, true);
    drive(&mut ra, answers_a);
    drive(&mut rb, answers_b);
    assert_eq!(ra.stats().remaining_size, 30);
    assert_eq!(rb.stats().remaining_size, 30);
}

#[test]
fn progress_eta_and_speed() {
    let mut run = CopyRun::new(three_files(), "T".to_string(), date(), None, true);
    assert_eq!(run.stats().progress_hundredths(), 0);
    assert_eq!(run.stats().eta(5000), None);
    run.record(CopyOutcome::Copied);
    // 10 of 60 bytes: 16.66 %
    assert_eq!(run.stats().progress_hundredths(), 1666);
    // 5 s for 10 bytes, 50 to go: 25 s
    assert_eq!(run.stats().eta(5000), Some(25000));
    run.record(CopyOutcome::Skipped);
    // 10 of 40 bytes: 25 %
    assert_eq!(run.stats().progress_hundredths(), 2500);
    assert_eq!(run.stats().eta(5000), Some(15000));
    run.record(CopyOutcome::Copied);
    assert_eq!(run.stats().progress_hundredths(), 10000);
    assert_eq!(run.stats().eta(5000), Some(0));
    assert_eq!(run.stats().average_speed(4), 10);
    assert_eq!(run.stats().average_speed(0), 40);
}

#[test]
fn empty_run() {
    let mut run = CopyRun::new(vec![], "T".to_string(), date(), None, false);
    assert_eq!(run.next_index(), None);
    let (tried, _) = drive(&mut run, |_| CopyOutcome::Copied);
    assert!(tried.is_empty());
    assert_eq!(run.stats().progress_hundredths(), 0);
    assert_eq!(run.stats().total_files, 0);
}
