use dicom_preprocessor::buf3d::Buf3D;
use dicom_preprocessor::grid::Scale3;
use dicom_preprocessor::source::{DicomDataInternal, MergeError};
use dicom_preprocessor::uvec3::UVec3;
use dicom_preprocessor::zip::{check_archive_layout, ArchiveEntry, ZipReadError, ZipReadErrorType};

fn slab(w: u32, h: u32, d: u32, fill: u16, max: u16) -> DicomDataInternal {
    let n = (w * h * d) as usize;
    let mut histogram = vec![0u32; max as usize + 1];
    histogram[fill as usize] = n as u32;
    DicomDataInternal {
        data: Buf3D { stride: UVec3::new(w, h, d), data: vec![fill; n] },
        histogram,
        min: fill,
        max,
        scaling: Scale3 { x: 1, y: 2, z: 3 },
    }
}

fn dir(id: u32) -> ArchiveEntry {
    ArchiveEntry { is_dir: true, dir_id: id }
}

fn file(parent: u32) -> ArchiveEntry {
    ArchiveEntry { is_dir: false, dir_id: parent }
}

#[test]
fn empty_archive_has_no_files() {
    let r = check_archive_layout(&vec![]);
    assert_eq!(r, Err(ZipReadErrorType::NoFiles));
}

#[test]
fn one_folder_of_files_is_accepted() {
    let r = check_archive_layout(&vec![dir(7), file(7), file(7), file(7)]);
    assert_eq!(r, Ok(()));
}

#[test]
fn two_folders_are_rejected() {
    let r = check_archive_layout(&vec![dir(7), file(7), dir(9)]);
    assert_eq!(r, Err(ZipReadErrorType::MoreThanOneFolder));
}

#[test]
fn file_outside_the_folder_is_rejected() {
    let r = check_archive_layout(&vec![dir(7), file(7), file(0)]);
    assert_eq!(r, Err(ZipReadErrorType::MoreThanOneFolder));
}

#[test]
fn files_before_any_folder_pass_unchecked() {
    // Mirrors the reader: only files after the folder entry are constrained.
    let r = check_archive_layout(&vec![file(3), dir(7), file(7)]);
    assert_eq!(r, Ok(()));
}

#[test]
fn error_message_renders_kind_and_detail() {
    let e = ZipReadError(ZipReadErrorType::ExtractFailed, Some(String::from("bad header")));
    assert_eq!(e.message(), "extract failed: bad header");
    let e2 = ZipReadError(ZipReadErrorType::NoFiles, None);
    assert_eq!(e2.message(), "no files: no message specified");
}

#[test]
fn merge_slab_concatenates_and_widens() {
    let mut a = slab(2, 2, 1, 1, 3);
    let mut b = slab(2, 2, 2, 3, 3);
    b.scaling = Scale3 { x: 9, y: 9, z: 9 };
    let r = a.merge_slab(&mut b);
    assert_eq!(r, Ok(()));
    assert_eq!(a.data.stride, UVec3::new(2, 2, 3));
    assert_eq!(a.data.data, vec![1, 1, 1, 1, 3, 3, 3, 3, 3, 3, 3, 3]);
    assert_eq!(a.histogram, vec![0, 4, 0, 8]);
    assert_eq!(a.min, 1);
    assert_eq!(a.max, 3);
    assert_eq!(a.scaling, Scale3 { x: 9, y: 9, z: 9 });
}

#[test]
fn merge_slab_rejects_stride_mismatch() {
    let mut a = slab(2, 2, 1, 1, 3);
    let mut b = slab(3, 2, 1, 1, 3);
    let r = a.merge_slab(&mut b);
    assert_eq!(r, Err(MergeError::StrideMismatch));
    assert_eq!(a.data.data.len(), 4);
    assert_eq!(b.data.data.len(), 6);
}

#[test]
fn merge_slab_rejects_histogram_mismatch() {
    let mut a = slab(2, 2, 1, 1, 3);
    let mut b = slab(2, 2, 1, 1, 7);
    let r = a.merge_slab(&mut b);
    assert_eq!(r, Err(MergeError::HistogramMismatch));
}

#[test]
fn merge_slab_rejects_count_overflow() {
    let mut a = slab(2, 2, 1, 0, 1);
    let mut b = slab(2, 2, 1, 0, 1);
    a.histogram[0] = i32::MAX as u32;
    b.histogram[0] = 1;
    let r = a.merge_slab(&mut b);
    assert_eq!(r, Err(MergeError::CountOverflow));
}
