use miktos_kosmos::organizer::{
    build_organization_plan, destination_folder, generate_organization_plan, get_file_date,
    get_month_name, type_folder_name,
};
use miktos_kosmos::types::{
    FileMetadata, FileType, OperationMode, OrganizationStrategy, Timestamp,
};

fn ts(year: i32, month: u32, day: u32) -> Timestamp {
    Timestamp { year, month, day, hour: 12, minute: 0, second: 0 }
}

fn record(name: &str, size: u64, kind: FileType, taken: Option<Timestamp>) -> FileMetadata {
    FileMetadata {
        path: format!("/src/{name}"),
        file_name: name.to_string(),
        file_size: size,
        file_type: kind,
        created_at: None,
        modified_at: None,
        date_taken: taken,
        width: None,
        height: None,
        duration: None,
        page_count: None,
        hash: String::new(),
        is_screenshot: false,
        is_duplicate: false,
        camera_make: None,
        camera_model: None,
    }
}

#[test]
fn test_get_month_name() {
    assert_eq!(get_month_name(1), "January");
    assert_eq!(get_month_name(12), "December");
    assert_eq!(get_month_name(13), "Unknown");
}

#[test]
fn month_name_out_of_range_is_unknown() {
    assert_eq!(get_month_name(0), "Unknown");
    assert_eq!(get_month_name(7), "July");
}

#[test]
fn type_folders_are_fixed() {
    assert_eq!(type_folder_name(FileType::Image), "Images");
    assert_eq!(type_folder_name(FileType::Video), "Videos");
    assert_eq!(type_folder_name(FileType::Document), "Documents");
    assert_eq!(type_folder_name(FileType::Audio), "Audio");
    assert_eq!(type_folder_name(FileType::Archive), "Archives");
    assert_eq!(type_folder_name(FileType::Other), "Other");
}

#[test]
fn file_date_prefers_capture_then_created_then_modified() {
    let mut f = record("a.jpg", 1, FileType::Image, None);
    f.modified_at = Some(ts(2020, 1, 1));
    assert_eq!(get_file_date(&f), Some(ts(2020, 1, 1)));
    f.created_at = Some(ts(2021, 1, 1));
    assert_eq!(get_file_date(&f), Some(ts(2021, 1, 1)));
    f.date_taken = Some(ts(2022, 1, 1));
    assert_eq!(get_file_date(&f), Some(ts(2022, 1, 1)));
}

#[test]
fn folder_patterns_per_strategy() {
    let f = record("a.jpg", 1, FileType::Image, Some(ts(2023, 3, 5)));
    assert_eq!(destination_folder("/r", OrganizationStrategy::Year, &f).0, "/r/2023");
    assert_eq!(destination_folder("/r", OrganizationStrategy::YearMonth, &f).0, "/r/2023/03");
    assert_eq!(destination_folder("/r", OrganizationStrategy::Date, &f).0, "/r/2023/03-March");
    assert_eq!(destination_folder("/r", OrganizationStrategy::FileType, &f).0, "/r/Images");
    assert_eq!(
        destination_folder("/r", OrganizationStrategy::DateAndType, &f).0,
        "/r/2023/03-March/Images"
    );
}

#[test]
fn month_thirteen_is_unknown_in_date_folder() {
    let f = record("a.jpg", 1, FileType::Image, Some(Timestamp { year: 2023, month: 13, day: 1, hour: 0, minute: 0, second: 0 }));
    assert_eq!(destination_folder("/r", OrganizationStrategy::Date, &f).0, "/r/2023/13-Unknown");
}

#[test]
fn years_are_zero_padded() {
    let f = record("a.jpg", 1, FileType::Image, Some(ts(987, 11, 1)));
    assert_eq!(destination_folder("/r", OrganizationStrategy::YearMonth, &f).0, "/r/0987/11");
    let g = record("b.jpg", 1, FileType::Image, Some(ts(-5, 1, 1)));
    assert_eq!(destination_folder("/r", OrganizationStrategy::Year, &g).0, "/r/-005");
}

#[test]
fn undated_files_go_to_unknown() {
    let f = record("v.mp4", 1, FileType::Video, None);
    let (path, undated) = destination_folder("/r", OrganizationStrategy::Date, &f);
    assert_eq!(path, "/r/Unknown");
    assert!(undated);
    let (path, undated) = destination_folder("/r", OrganizationStrategy::DateAndType, &f);
    assert_eq!(path, "/r/Unknown/Videos");
    assert!(undated);
    let (path, undated) = destination_folder("/r", OrganizationStrategy::FileType, &f);
    assert_eq!(path, "/r/Videos");
    assert!(!undated);
}

#[test]
fn plan_groups_sorts_and_totals() {
    let files = vec![
        record("b.jpg", 10, FileType::Image, Some(ts(2023, 5, 1))),
        record("a.jpg", 20, FileType::Image, Some(ts(2021, 1, 1))),
        record("c.jpg", 30, FileType::Image, Some(ts(2023, 5, 9))),
        record("d.mp4", 40, FileType::Video, None),
    ];
    let plan = build_organization_plan(files, "/dest".to_string(), OrganizationStrategy::YearMonth, OperationMode::Copy, true).unwrap();
    let paths: Vec<&str> = plan.folders.iter().map(|g| g.path.as_str()).collect();
    assert_eq!(paths, vec!["/dest/2021/01", "/dest/2023/05", "/dest/Unknown"]);
    assert_eq!(plan.folders[1].files, vec!["b.jpg".to_string(), "c.jpg".to_string()]);
    assert_eq!(plan.folders[1].sources, vec!["/src/b.jpg".to_string(), "/src/c.jpg".to_string()]);
    assert_eq!(plan.folders[1].file_count, 2);
    assert_eq!(plan.folders[1].total_size, 40);
    assert_eq!(plan.total_files, 4);
    assert_eq!(plan.total_size, 100);
    assert_eq!(plan.files_without_dates, 1);
    let sum: usize = plan.folders.iter().map(|g| g.file_count).sum();
    assert_eq!(sum, plan.total_files);
    for g in &plan.folders {
        assert_eq!(g.file_count, g.files.len());
    }
}

#[test]
fn plan_of_three_dated_images() {
    let files = vec![
        record("one.jpg", 1, FileType::Image, Some(ts(2020, 2, 1))),
        record("two.jpg", 1, FileType::Image, Some(ts(2021, 7, 1))),
        record("three.jpg", 1, FileType::Image, Some(ts(2022, 12, 1))),
    ];
    let plan = build_organization_plan(files, "/d".to_string(), OrganizationStrategy::Date, OperationMode::Copy, true).unwrap();
    let paths: Vec<&str> = plan.folders.iter().map(|g| g.path.as_str()).collect();
    assert_eq!(paths, vec!["/d/2020/02-February", "/d/2021/07-July", "/d/2022/12-December"]);
    assert_eq!(plan.files_without_dates, 0);
    assert_eq!(plan.total_files, 3);
}

#[test]
fn empty_input_is_rejected() {
    let r = build_organization_plan(Vec::new(), "/d".to_string(), OrganizationStrategy::Date, OperationMode::Copy, true);
    assert_eq!(r.unwrap_err(), "No files to organize");
    let r = generate_organization_plan(Vec::new(), "/d".to_string(), OrganizationStrategy::Date, OperationMode::Copy);
    assert_eq!(r.unwrap_err(), "No files to organize");
}

#[test]
fn missing_destination_is_rejected() {
    let files = vec![record("a.jpg", 1, FileType::Image, None)];
    let r = generate_organization_plan(
        files,
        "/no/such/directory/for/organizing".to_string(),
        OrganizationStrategy::Date,
        OperationMode::Copy,
    );
    assert_eq!(r.unwrap_err(), "Destination path does not exist: /no/such/directory/for/organizing");
}

#[test]
fn existing_destination_is_accepted() {
    let files = vec![record("a.jpg", 1, FileType::Image, None)];
    let r = generate_organization_plan(files, "/".to_string(), OrganizationStrategy::FileType, OperationMode::Move);
    let plan = r.unwrap();
    assert_eq!(plan.folders.len(), 1);
    assert_eq!(plan.folders[0].path, "//Images");
}

#[test]
fn greeting_names_the_user() {
    assert_eq!(miktos_kosmos::commands::greet("Ada"), "Hello, Ada! Welcome to Miktos Kosmos.");
}
