use std::collections::BTreeSet;

use miktos_kosmos::executor::{candidate, find_destination, resolve_duplicate_filename, Event, Execution, Step};
use miktos_kosmos::organizer::build_organization_plan;
use miktos_kosmos::types::{
    FileMetadata, FileType, FolderPreview, OperationMode, OperationStatus, OrganizationPlan,
    OrganizationStrategy, Timestamp,
};

fn names(list: &[&str]) -> Vec<String> {
    list.iter().map(|s| s.to_string()).collect()
}

fn record(path: &str, size: u64, year: i32, month: u32) -> FileMetadata {
    let file_name = path.rsplit('/').next().unwrap().to_string();
    FileMetadata {
        path: path.to_string(),
        file_name,
        file_size: size,
        file_type: FileType::Image,
        created_at: None,
        modified_at: None,
        date_taken: Some(Timestamp { year, month, day: 1, hour: 0, minute: 0, second: 0 }),
        width: None,
        height: None,
        duration: None,
        page_count: None,
        hash: String::new(),
        is_screenshot: false,
        is_duplicate: false,
        camera_make: None,
        camera_model: None,
    }
}

/// A file system held in memory: the set of full paths, directories included.
struct MemoryFs {
    entries: BTreeSet<String>,
    fail_remove: bool,
}

impl MemoryFs {
    fn names_in(&self, dir: &str) -> Vec<String> {
        let prefix = format!("{dir}/");
        self.entries
            .iter()
            .filter_map(|p| p.strip_prefix(&prefix))
            .filter(|rest| !rest.contains('/'))
            .map(|s| s.to_string())
            .collect()
    }

    fn run(&mut self, exec: &mut Execution) {
        loop {
            let event = match exec.next_step() {
                Step::Finish => return,
                Step::CheckSource { path } => Event::SourceExists(self.entries.contains(&path)),
                Step::CreateDir { dir } => {
                    self.entries.insert(dir);
                    Event::DirCreated(Ok(()))
                }
                Step::ListDir { dir } => Event::DirListed(self.names_in(&dir)),
                Step::Copy { from: _, to } => {
                    self.entries.insert(to);
                    Event::Copied(Ok(1))
                }
                Step::RemoveSource { path } => {
                    if self.fail_remove {
                        Event::SourceRemoved(Err("read-only file system".to_string()))
                    } else {
                        self.entries.remove(&path);
                        Event::SourceRemoved(Ok(()))
                    }
                }
            };
            exec.handle(event);
        }
    }
}

fn one_folder_plan(mode: OperationMode, dir: &str, files: &[&str], sources: &[&str]) -> OrganizationPlan {
    OrganizationPlan {
        destination_root: "/d".to_string(),
        strategy: OrganizationStrategy::Date,
        mode,
        folders: vec![FolderPreview {
            path: dir.to_string(),
            file_count: files.len(),
            total_size: 0,
            files: names(files),
            sources: names(sources),
        }],
        total_files: files.len(),
        total_size: 0,
        files_without_dates: 0,
    }
}

#[test]
fn test_resolve_duplicate_filename() {
    let resolved = resolve_duplicate_filename("test.txt", &names(&["test.txt"]));
    assert_eq!(resolved, "test_1.txt");
}

#[test]
fn collisions_count_up() {
    assert_eq!(resolve_duplicate_filename("test.txt", &names(&[])), "test.txt");
    assert_eq!(resolve_duplicate_filename("test.txt", &names(&["test.txt"])), "test_1.txt");
    assert_eq!(
        resolve_duplicate_filename("test.txt", &names(&["test.txt", "test_1.txt"])),
        "test_2.txt"
    );
}

#[test]
fn collision_names_without_extension() {
    assert_eq!(resolve_duplicate_filename("README", &names(&["README"])), "README_1");
    assert_eq!(resolve_duplicate_filename(".bashrc", &names(&[".bashrc"])), ".bashrc_1");
    assert_eq!(resolve_duplicate_filename("a.tar.gz", &names(&["a.tar.gz"])), "a.tar_1.gz");
    assert_eq!(resolve_duplicate_filename("foo.", &names(&["foo."])), "foo_1");
}

#[test]
fn candidates_in_order() {
    assert_eq!(candidate("img.jpg", 0), "img.jpg");
    assert_eq!(candidate("img.jpg", 12), "img_12.jpg");
}

#[test]
fn destination_lookup_by_source_path() {
    let folders = vec![
        FolderPreview { path: "/d/A".to_string(), file_count: 1, total_size: 0, files: names(&["x.jpg"]), sources: names(&["/s1/x.jpg"]) },
        FolderPreview { path: "/d/B".to_string(), file_count: 1, total_size: 0, files: names(&["x.jpg"]), sources: names(&["/s2/x.jpg"]) },
    ];
    assert_eq!(find_destination(&folders, &"/s2/x.jpg".to_string()), Some(("/d/B".to_string(), "x.jpg".to_string())));
    assert_eq!(find_destination(&folders, &"/s1/x.jpg".to_string()), Some(("/d/A".to_string(), "x.jpg".to_string())));
    assert_eq!(find_destination(&folders, &"/s3/x.jpg".to_string()), None);
}

#[test]
fn copy_three_dated_images() {
    let sources = vec![
        record("/src/one.jpg", 5, 2020, 2),
        record("/src/two.jpg", 6, 2021, 7),
        record("/src/three.jpg", 7, 2022, 12),
    ];
    let plan = build_organization_plan(sources.clone(), "/d".to_string(), OrganizationStrategy::Date, OperationMode::Copy, true).unwrap();
    assert_eq!(plan.files_without_dates, 0);
    let mut fs = MemoryFs { entries: BTreeSet::new(), fail_remove: false };
    fs.entries.insert("/d".to_string());
    for s in &sources {
        fs.entries.insert(s.path.clone());
    }
    let mut exec = Execution::new(&plan, sources);
    fs.run(&mut exec);
    let report = exec.finish(0, Timestamp { year: 2024, month: 1, day: 1, hour: 0, minute: 0, second: 0 });
    assert_eq!(report.successful_count, 3);
    assert_eq!(report.failed_count, 0);
    assert_eq!(report.skipped_count, 0);
    assert!(report.success);
    assert_eq!(report.total_size_processed, 18);
    for p in ["/src/one.jpg", "/src/two.jpg", "/src/three.jpg"] {
        assert!(fs.entries.contains(p));
    }
    for p in ["/d/2020/02-February/one.jpg", "/d/2021/07-July/two.jpg", "/d/2022/12-December/three.jpg"] {
        assert!(fs.entries.contains(p));
    }
}

#[test]
fn move_with_failed_delete_is_success() {
    let plan = one_folder_plan(OperationMode::Move, "/d/A", &["x.jpg"], &["/s/x.jpg"]);
    let mut fs = MemoryFs { entries: BTreeSet::new(), fail_remove: true };
    fs.entries.insert("/s/x.jpg".to_string());
    let mut exec = Execution::new(&plan, vec![record("/s/x.jpg", 3, 2020, 1)]);
    fs.run(&mut exec);
    let report = exec.finish(1, Timestamp { year: 2024, month: 1, day: 1, hour: 0, minute: 0, second: 0 });
    assert_eq!(report.successful_count, 1);
    assert!(matches!(report.operations[0].status, OperationStatus::Success));
    assert_eq!(report.operations[0].destination_path, "/d/A/x.jpg");
    assert!(fs.entries.contains("/s/x.jpg"));
    assert!(fs.entries.contains("/d/A/x.jpg"));
}

#[test]
fn move_removes_source() {
    let plan = one_folder_plan(OperationMode::Move, "/d/A", &["x.jpg"], &["/s/x.jpg"]);
    let mut fs = MemoryFs { entries: BTreeSet::new(), fail_remove: false };
    fs.entries.insert("/s/x.jpg".to_string());
    let mut exec = Execution::new(&plan, vec![record("/s/x.jpg", 3, 2020, 1)]);
    fs.run(&mut exec);
    assert!(!fs.entries.contains("/s/x.jpg"));
    assert!(fs.entries.contains("/d/A/x.jpg"));
}

#[test]
fn vanished_and_unplanned_sources_are_skipped() {
    let plan = one_folder_plan(OperationMode::Copy, "/d/A", &["x.jpg"], &["/s/x.jpg"]);
    let mut fs = MemoryFs { entries: BTreeSet::new(), fail_remove: false };
    fs.entries.insert("/s/y.jpg".to_string());
    let mut exec = Execution::new(&plan, vec![record("/s/x.jpg", 3, 2020, 1), record("/s/y.jpg", 3, 2020, 1)]);
    fs.run(&mut exec);
    let report = exec.finish(0, Timestamp { year: 2024, month: 1, day: 1, hour: 0, minute: 0, second: 0 });
    assert_eq!(report.skipped_count, 2);
    assert!(!report.success);
    assert_eq!(report.operations[0].error_message.as_deref(), Some("Source file does not exist"));
    assert_eq!(report.operations[1].error_message.as_deref(), Some("No destination found"));
    assert_eq!(report.operations[1].destination_path, "");
}

#[test]
fn failures_are_recorded_and_the_batch_goes_on() {
    let plan = one_folder_plan(OperationMode::Copy, "/d/A", &["x.jpg", "y.jpg"], &["/s/x.jpg", "/s/y.jpg"]);
    let mut exec = Execution::new(&plan, vec![record("/s/x.jpg", 3, 2020, 1), record("/s/y.jpg", 4, 2020, 1)]);
    exec.handle(Event::SourceExists(true));
    exec.handle(Event::DirCreated(Err("permission denied".to_string())));
    exec.handle(Event::SourceExists(true));
    exec.handle(Event::DirCreated(Ok(())));
    exec.handle(Event::DirListed(names(&["y.jpg"])));
    assert!(matches!(exec.next_step(), Step::Copy { .. }));
    exec.handle(Event::Copied(Err("disk full".to_string())));
    assert!(matches!(exec.next_step(), Step::Finish));
    let report = exec.finish(0, Timestamp { year: 2024, month: 1, day: 1, hour: 0, minute: 0, second: 0 });
    assert_eq!(report.failed_count, 2);
    assert_eq!(report.operations[0].error_message.as_deref(), Some("Failed to create directory: permission denied"));
    assert_eq!(report.operations[0].destination_path, "/d/A/x.jpg");
    assert_eq!(report.operations[1].destination_path, "/d/A/y_1.jpg");
    assert_eq!(report.operations[1].error_message.as_deref(), Some("disk full"));
    assert_eq!(report.successful_count + report.failed_count + report.skipped_count, report.operations.len());
}

#[test]
fn events_out_of_turn_change_nothing() {
    let plan = one_folder_plan(OperationMode::Copy, "/d/A", &["x.jpg"], &["/s/x.jpg"]);
    let mut exec = Execution::new(&plan, vec![record("/s/x.jpg", 3, 2020, 1)]);
    exec.handle(Event::Copied(Ok(3)));
    assert!(matches!(exec.next_step(), Step::CheckSource { .. }));
    assert_eq!(exec.operations.len(), 0);
}

#[test]
fn disjoint_destinations_in_any_order() {
    let sources = vec![
        record("/s/a.jpg", 1, 2020, 1),
        record("/s/b.jpg", 1, 2021, 1),
        record("/s/c.jpg", 1, 2022, 1),
    ];
    let plan = build_organization_plan(sources.clone(), "/d".to_string(), OrganizationStrategy::Year, OperationMode::Copy, true).unwrap();
    let run = |order: Vec<FileMetadata>| {
        let mut fs = MemoryFs { entries: BTreeSet::new(), fail_remove: false };
        for s in &sources {
            fs.entries.insert(s.path.clone());
        }
        let mut exec = Execution::new(&plan, order);
        fs.run(&mut exec);
        let report = exec.finish(0, Timestamp { year: 2024, month: 1, day: 1, hour: 0, minute: 0, second: 0 });
        let mut outcomes: Vec<(String, String, bool)> = report
            .operations
            .iter()
            .map(|o| (o.source_path.clone(), o.destination_path.clone(), matches!(o.status, OperationStatus::Success)))
            .collect();
        outcomes.sort();
        (fs.entries, outcomes)
    };
    let forward = run(sources.clone());
    let backward = run(sources.iter().rev().cloned().collect());
    assert_eq!(forward, backward);
}
