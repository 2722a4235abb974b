use mtp_copy::file_type::{classify_lowercase_name, MtpFileType, UnknownFileType};

#[test]
fn image_extensions_any_case() {
    for ext in ["jpg", "jpeg", "heic", "heif", "png", "gif", "bmp", "tif", "tiff"] {
        let lower = format!("IMG_0001.{}", ext);
        let upper = format!("IMG_0001.{}", ext.to_uppercase());
        assert_eq!(MtpFileType::try_from_file_name(&lower), Ok(MtpFileType::Image));
        assert_eq!(MtpFileType::try_from_file_name(&upper), Ok(MtpFileType::Image));
    }
}

#[test]
fn raw_extensions_any_case() {
    for ext in ["raw", "dng", "raf", "crw", "cr2", "cr3", "arw", "srf", "sr2", "rw2", "nef", "nrw"] {
        let lower = format!("DSC_1234.{}", ext);
        let upper = format!("DSC_1234.{}", ext.to_uppercase());
        assert_eq!(MtpFileType::try_from_file_name(&lower), Ok(MtpFileType::RawImage));
        assert_eq!(MtpFileType::try_from_file_name(&upper), Ok(MtpFileType::RawImage));
    }
}

#[test]
fn video_extensions_any_case() {
    for ext in ["mp4", "mov", "avi", "mkv", "wmv", "flv", "webm", "m4v"] {
        let lower = format!("VID_1.{}", ext);
        let upper = format!("VID_1.{}", ext.to_uppercase());
        assert_eq!(MtpFileType::try_from_file_name(&lower), Ok(MtpFileType::Video));
        assert_eq!(MtpFileType::try_from_file_name(&upper), Ok(MtpFileType::Video));
    }
}

#[test]
fn mixed_case_extension() {
    assert_eq!(MtpFileType::try_from_file_name("photo.JpEg"), Ok(MtpFileType::Image));
    assert_eq!(MtpFileType::try_from_file_name("clip.Mp4"), Ok(MtpFileType::Video));
}

#[test]
fn only_last_segment_counts() {
    assert_eq!(MtpFileType::try_from_file_name("archive.jpg.txt"), Err(UnknownFileType));
    assert_eq!(MtpFileType::try_from_file_name("movie.txt.mov"), Ok(MtpFileType::Video));
    assert_eq!(MtpFileType::try_from_file_name(".nef"), Ok(MtpFileType::RawImage));
}

#[test]
fn unknown_or_missing_extension() {
    assert_eq!(MtpFileType::try_from_file_name("notes.txt"), Err(UnknownFileType));
    assert_eq!(MtpFileType::try_from_file_name("jpg"), Err(UnknownFileType));
    assert_eq!(MtpFileType::try_from_file_name("image."), Err(UnknownFileType));
    assert_eq!(MtpFileType::try_from_file_name(""), Err(UnknownFileType));
    assert_eq!(MtpFileType::try_from_file_name("a.jpgx"), Err(UnknownFileType));
}

#[test]
fn lowercase_name_is_not_folded_again() {
    assert_eq!(classify_lowercase_name("a.png"), Some(MtpFileType::Image));
    assert_eq!(classify_lowercase_name("a.PNG"), None);
    assert_eq!(classify_lowercase_name("dir.d/file"), None);
}

#[test]
fn copy_order_and_segments() {
    assert_eq!(MtpFileType::Image.copy_order(), 0);
    assert_eq!(MtpFileType::RawImage.copy_order(), 1);
    assert_eq!(MtpFileType::Video.copy_order(), 2);
    assert_eq!(MtpFileType::Image.out_path_segment(), "Out-of-camera");
    assert_eq!(MtpFileType::RawImage.out_path_segment(), "Undeveloped");
    assert_eq!(MtpFileType::Video.out_path_segment(), "Video");
    assert_eq!(MtpFileType::Image.label(), "Image");
    assert_eq!(MtpFileType::RawImage.label(), "Raw image");
    assert_eq!(MtpFileType::Video.label(), "Video");
}

#[test]
fn types_ordered_by_rank() {
    assert!(MtpFileType::Image < MtpFileType::RawImage);
    assert!(MtpFileType::RawImage < MtpFileType::Video);
    assert!(MtpFileType::Image < MtpFileType::Video);
    assert_eq!(
        MtpFileType::Video.partial_cmp(&MtpFileType::Video),
        Some(std::cmp::Ordering::Equal)
    );
    assert!(!(MtpFileType::Video < MtpFileType::Image));
}
