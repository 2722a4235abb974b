use mtp_copy::device::{select_device, DeviceError};
use mtp_copy::file_type::MtpFileType;
use mtp_copy::mtp_file::{count_files_of_type, sort_files, MtpFile};
use mtp_copy::run::total_size;
use mtp_copy::walk::{NodeInfo, Walk};

fn file(name: &str, path: &str, t: MtpFileType, size: u64, object: usize) -> MtpFile {
    MtpFile { name: name.to_string(), path: path.to_string(), file_type: t, size, object }
}

fn names(files: &[MtpFile]) -> Vec<String> {
    files.iter().map(|f| f.name.clone()).collect()
}

#[test]
fn sort_by_type_then_name() {
    let mut files = vec![
        file("b.mp4", "DCIM/b.mp4", MtpFileType::Video, 5, 0),
        file("c.jpg", "DCIM/c.jpg", MtpFileType::Image, 1, 1),
        file("a.dng", "DCIM/a.dng", MtpFileType::RawImage, 3, 2),
        file("a.jpg", "DCIM/a.jpg", MtpFileType::Image, 2, 3),
        file("a.mov", "DCIM/a.mov", MtpFileType::Video, 4, 4),
    ];
    sort_files(&mut files);
    assert_eq!(names(&files), vec!["a.jpg", "c.jpg", "a.dng", "a.mov", "b.mp4"]);
}

#[test]
fn sort_is_stable_for_equal_keys() {
    let mut files = vec![
        file("x.jpg", "A/x.jpg", MtpFileType::Image, 1, 0),
        file("a.mov", "A/a.mov", MtpFileType::Video, 1, 1),
        file("x.jpg", "B/x.jpg", MtpFileType::Image, 1, 2),
        file("x.jpg", "C/x.jpg", MtpFileType::Image, 1, 3),
    ];
    sort_files(&mut files);
    let paths: Vec<String> = files.iter().map(|f| f.path.clone()).collect();
    assert_eq!(paths, vec!["A/x.jpg", "B/x.jpg", "C/x.jpg", "A/a.mov"]);
}

#[test]
fn sort_twice_is_sort_once() {
    let mut files = vec![
        file("z.nef", "z.nef", MtpFileType::RawImage, 1, 0),
        file("B.jpg", "B.jpg", MtpFileType::Image, 1, 1),
        file("a.jpg", "a.jpg", MtpFileType::Image, 1, 2),
    ];
    sort_files(&mut files);
    let once = names(&files);
    assert_eq!(once, vec!["B.jpg", "a.jpg", "z.nef"]);
    sort_files(&mut files);
    assert_eq!(names(&files), once);
}

#[test]
fn sort_empty_listing() {
    let mut files: Vec<MtpFile> = vec![];
    sort_files(&mut files);
    assert!(files.is_empty());
}

#[test]
fn counts_and_total() {
    let files = vec![
        file("a.jpg", "a.jpg", MtpFileType::Image, 10, 0),
        file("b.jpg", "b.jpg", MtpFileType::Image, 20, 1),
        file("c.mp4", "c.mp4", MtpFileType::Video, 30, 2),
    ];
    assert_eq!(count_files_of_type(&files, MtpFileType::Image), 2);
    assert_eq!(count_files_of_type(&files, MtpFileType::RawImage), 0);
    assert_eq!(count_files_of_type(&files, MtpFileType::Video), 1);
    assert_eq!(total_size(&files), Some(60));
    assert_eq!(total_size(&vec![]), Some(0));
}

#[test]
fn total_size_overflow() {
    let files = vec![
        file("a.jpg", "a.jpg", MtpFileType::Image, u64::MAX, 0),
        file("b.jpg", "b.jpg", MtpFileType::Image, 1, 1),
    ];
    assert_eq!(total_size(&files), None);
    let max = vec![file("a.jpg", "a.jpg", MtpFileType::Image, u64::MAX, 0)];
    assert_eq!(total_size(&max), Some(u64::MAX));
}

fn node(object: usize, name: &str, size: Option<u32>) -> NodeInfo {
    NodeInfo { object, name: name.to_string(), size }
}

#[test]
fn walk_is_depth_first_and_filters() {
    // 0: root
    //   1: DCIM
    //     3: b.JPG (7 bytes)
    //     4: notes.txt
    //     5: c.mov (no size)
    //   2: a.nef (9 bytes)
    let mut walk = Walk::new(0, None);
    let mut visited = vec![];
    while let Some(obj) = walk.next_node() {
        visited.push(obj);
        let children = match obj {
            0 => vec![node(1, "DCIM", Some(0)), node(2, "a.nef", Some(9))],
            1 => vec![node(3, "b.JPG", Some(7)), node(4, "notes.txt", Some(3)), node(5, "c.mov", None)],
            _ => vec![],
        };
        walk.add_children(children);
    }
    assert_eq!(visited, vec![0, 1, 3, 4, 5, 2]);
    let files = walk.into_files();
    assert_eq!(files.len(), 2);
    assert_eq!(files[0].name, "b.JPG");
    assert_eq!(files[0].path, "DCIM/b.JPG");
    assert_eq!(files[0].file_type, MtpFileType::Image);
    assert_eq!(files[0].size, 7);
    assert_eq!(files[0].object, 3);
    assert_eq!(files[1].path, "a.nef");
    assert_eq!(files[1].file_type, MtpFileType::RawImage);
    assert_eq!(files[1].size, 9);
}

#[test]
fn walk_from_a_path() {
    let mut walk = Walk::new(7, Some("DCIM/Camera".to_string()));
    assert_eq!(walk.next_node(), Some(7));
    walk.add_children(vec![node(8, "x.heic", Some(1))]);
    assert_eq!(walk.next_node(), Some(8));
    walk.add_children(vec![]);
    assert_eq!(walk.next_node(), None);
    let files = walk.into_files();
    assert_eq!(files.len(), 1);
    assert_eq!(files[0].path, "DCIM/Camera/x.heic");
}

#[test]
fn device_choice() {
    let devices = vec!["Phone A".to_string(), "Camera".to_string(), "Camera".to_string()];
    assert_eq!(select_device(&devices, None), Ok(0));
    assert_eq!(select_device(&devices, Some("Camera")), Ok(1));
    assert_eq!(select_device(&devices, Some("camera")), Err(DeviceError::NotFound));
    assert_eq!(select_device(&vec![], None), Err(DeviceError::NoDevices));
    assert_eq!(select_device(&vec![], Some("Phone A")), Err(DeviceError::NotFound));
}
