use bzip2::write::BzEncoder;
use flate2::write::GzEncoder;
use flate2::Compression;
use rsbin::archive::bz2::bz2_file;
use rsbin::archive::records::{tar_files, zip_files, TarRecord, ZipRecord};
use rsbin::archive::zst::zst_file;
use rsbin::archive::{lone_file, select_extractor, Extractor, Format};
use rsbin::failure::Failure;
use std::io::Write;
use tar::Builder;

fn append_file(builder: &mut Builder<Vec<u8>>, name: &str, content: &[u8]) {
    let mut header = tar::Header::new_gnu();
    header.set_size(content.len() as u64);
    header.set_mode(0o755);
    header.set_entry_type(tar::EntryType::Regular);
    builder.append_data(&mut header, name, content).unwrap();
}

#[test]
fn extracts_tar_gz_files() {
    let mut tar_builder = Builder::new(Vec::new());
    append_file(&mut tar_builder, "example-amd64", b"binary content");
    tar_builder.finish().unwrap();
    let tar_data = tar_builder.into_inner().unwrap();

    let mut encoder = GzEncoder::new(Vec::new(), Compression::default());
    encoder.write_all(&tar_data).unwrap();
    let gz_data = encoder.finish().unwrap();

    let extractor = select_extractor("example.tar.gz").unwrap();
    let entries = extractor.entries("example.tar.gz", &gz_data).unwrap();

    assert_eq!(entries.len(), 1);
    assert_eq!(entries[0].archive_path, "example-amd64");
    assert_eq!(entries[0].contents, b"binary content");
    assert_eq!(entries[0].mode, Some(0o755));
}

#[test]
fn extracts_tar_xz_files() {
    let mut tar_builder = Builder::new(Vec::new());
    append_file(&mut tar_builder, "example-amd64", b"binary content");
    tar_builder.finish().unwrap();
    let tar_data = tar_builder.into_inner().unwrap();

    let mut encoder = xz2::write::XzEncoder::new(Vec::new(), 6);
    encoder.write_all(&tar_data).unwrap();
    let xz_data = encoder.finish().unwrap();

    let extractor = select_extractor("example.tar.xz").unwrap();
    let entries = extractor.entries("example.tar.xz", &xz_data).unwrap();

    assert_eq!(entries.len(), 1);
    assert_eq!(entries[0].archive_path, "example-amd64");
    assert_eq!(entries[0].contents, b"binary content");
    assert_eq!(entries[0].mode, Some(0o755));
}

#[test]
fn extracts_single_zst_file() {
    let content = b"binary content";
    let mut encoder = zstd::Encoder::new(Vec::new(), 3).unwrap();
    encoder.write_all(content).unwrap();
    let zst_data = encoder.finish().unwrap();

    let extractor = select_extractor("example.zst").unwrap();
    let entries = extractor.entries("example.zst", &zst_data).unwrap();

    assert_eq!(entries.len(), 1);
    assert_eq!(entries[0].archive_path, "example");
    assert_eq!(entries[0].contents, b"binary content");
}

#[test]
fn extracts_single_bz2_file() {
    let content = b"binary content";
    let mut encoder = BzEncoder::new(Vec::new(), bzip2::Compression::default());
    encoder.write_all(content).unwrap();
    let bz2_data = encoder.finish().unwrap();

    let extractor = select_extractor("example.bz2").unwrap();
    let entries = extractor.entries("example.bz2", &bz2_data).unwrap();

    assert_eq!(entries.len(), 1);
    assert_eq!(entries[0].archive_path, "example");
    assert_eq!(entries[0].contents, b"binary content");
}

#[test]
fn extracts_zip_files() {
    let mut zip_data = Vec::new();
    {
        let mut zip = zip::ZipWriter::new(std::io::Cursor::new(&mut zip_data));
        let options = zip::write::SimpleFileOptions::default()
            .compression_method(zip::CompressionMethod::Stored);
        zip.start_file("example-amd64", options).unwrap();
        zip.write_all(b"binary content").unwrap();
        zip.finish().unwrap();
    }

    let extractor = select_extractor("example.zip").unwrap();
    let entries = extractor.entries("example.zip", &zip_data).unwrap();

    assert_eq!(entries.len(), 1);
    assert_eq!(entries[0].archive_path, "example-amd64");
    assert_eq!(entries[0].contents, b"binary content");
}

fn tar_with_directory() -> Vec<u8> {
    let mut builder = Builder::new(Vec::new());
    let mut header = tar::Header::new_gnu();
    header.set_size(0);
    header.set_mode(0o755);
    header.set_entry_type(tar::EntryType::Directory);
    builder.append_data(&mut header, "pkg/", std::io::empty()).unwrap();
    append_file(&mut builder, "pkg/first", b"1");
    append_file(&mut builder, "pkg/second", b"22");
    builder.into_inner().unwrap()
}

#[test]
fn skips_directories_of_tar_archives() {
    let mut encoder = GzEncoder::new(Vec::new(), Compression::default());
    encoder.write_all(&tar_with_directory()).unwrap();
    let bytes = encoder.finish().unwrap();
    let entries = select_extractor("x.tgz").unwrap().entries("x.tgz", &bytes).unwrap();
    let paths: Vec<&str> = entries.iter().map(|e| e.archive_path.as_str()).collect();
    assert_eq!(paths, vec!["pkg/first", "pkg/second"]);
    assert_eq!(entries[1].contents, b"22");
}

#[test]
fn passes_over_sparse_entries_of_huge_size() {
    let mut header = tar::Header::new_gnu();
    header.set_path("sparse").unwrap();
    header.set_size(0);
    header.set_mode(0o644);
    header.set_entry_type(tar::EntryType::GNUSparse);
    if let Some(gnu) = header.as_gnu_mut() {
        gnu.realsize[..12].copy_from_slice(b"777777777777");
        gnu.sparse[0].offset[..12].copy_from_slice(b"777777777777");
        gnu.sparse[0].numbytes[..12].copy_from_slice(b"000000000000");
    }
    header.set_cksum();
    let mut builder = Builder::new(Vec::new());
    builder.append(&header, std::io::empty()).unwrap();
    append_file(&mut builder, "tool", b"tool");
    let data = builder.into_inner().unwrap();
    let mut encoder = GzEncoder::new(Vec::new(), Compression::default());
    encoder.write_all(&data).unwrap();
    let bytes = encoder.finish().unwrap();
    let entries = select_extractor("x.tgz").unwrap().entries("x.tgz", &bytes).unwrap();
    assert_eq!(entries.len(), 1);
    assert_eq!(entries[0].archive_path, "tool");
}

#[test]
fn skips_directories_of_zip_archives() {
    let mut bytes = Vec::new();
    {
        let mut zip = zip::ZipWriter::new(std::io::Cursor::new(&mut bytes));
        let options = zip::write::SimpleFileOptions::default()
            .compression_method(zip::CompressionMethod::Stored)
            .unix_permissions(0o700);
        zip.add_directory("pkg", options).unwrap();
        zip.start_file("pkg/tool", options).unwrap();
        zip.write_all(b"tool").unwrap();
        zip.finish().unwrap();
    }
    let entries = select_extractor("x.zip").unwrap().entries("x.zip", &bytes).unwrap();
    assert_eq!(entries.len(), 1);
    assert_eq!(entries[0].archive_path, "pkg/tool");
    assert_eq!(entries[0].mode.map(|m| m & 0o777), Some(0o700));
}

#[test]
fn reports_damaged_artifacts() {
    let junk = b"this is no artifact at all, whatever its name may say".to_vec();
    let failure = |name: &str| select_extractor(name).unwrap().entries(name, &junk).unwrap_err();
    assert!(matches!(failure("x.tar.gz"), Failure::TarEntries(_) | Failure::TarEntry(_)));
    assert!(matches!(failure("x.txz"), Failure::TarEntries(_) | Failure::TarEntry(_)));
    assert!(matches!(failure("x.zip"), Failure::ZipArchive(_)));
    assert!(matches!(failure("x.bz2"), Failure::Bz2(_)));
    assert!(matches!(failure("x.zst"), Failure::Zstd(_)));
}

#[test]
fn tells_formats_by_suffix() {
    assert_eq!(select_extractor("a.tar.gz").unwrap().format, Format::TarGz);
    assert_eq!(select_extractor("a.tgz").unwrap().format, Format::TarGz);
    assert_eq!(select_extractor("a.tar.xz").unwrap().format, Format::TarXz);
    assert_eq!(select_extractor("a.txz").unwrap().format, Format::TarXz);
    assert_eq!(select_extractor("a.zip").unwrap().format, Format::Zip);
    assert_eq!(select_extractor("a.tar.bz2").unwrap().format, Format::Bz2);
    assert_eq!(select_extractor("a.tar.zst").unwrap().format, Format::Zst);
    let failure = select_extractor("a.tar").unwrap_err();
    assert_eq!(failure.message(), "unsupported artifact format: a.tar");
}

#[test]
fn names_a_lone_file_without_suffix() {
    let files = lone_file("tool.zst", ".zst", vec![1, 2]);
    assert_eq!(files.len(), 1);
    assert_eq!(files[0].archive_path, "tool");
    assert_eq!(files[0].contents, vec![1, 2]);
    assert_eq!(files[0].mode, None);
    assert_eq!(lone_file("tool", ".zst", vec![])[0].archive_path, "tool");
}

fn tar_record(is_file: bool, path: Result<&str, &str>, contents: Result<&[u8], &str>) -> TarRecord {
    TarRecord {
        is_file,
        path: path.map(str::to_string).map_err(str::to_string),
        mode: Some(0o600),
        contents: contents.map(|b| b.to_vec()).map_err(str::to_string),
    }
}

#[test]
fn takes_files_of_tar_records_up_to_the_first_failure() {
    let files = tar_files(Ok(vec![
        Ok(tar_record(false, Err("no path"), Err("no contents"))),
        Ok(tar_record(true, Ok("a"), Ok(b"x"))),
    ]))
    .unwrap();
    assert_eq!(files.len(), 1);
    assert_eq!(files[0].mode, Some(0o600));
    let failed = tar_files(Err("list".to_string())).unwrap_err();
    assert_eq!(failed.message(), "read tar entries: list");
    let failed = tar_files(Ok(vec![Err("entry".to_string())])).unwrap_err();
    assert_eq!(failed.message(), "read tar entry: entry");
    let failed = tar_files(Ok(vec![Ok(tar_record(true, Err("path"), Err("c")))])).unwrap_err();
    assert_eq!(failed.message(), "read tar entry path: path");
    let failed = tar_files(Ok(vec![Ok(tar_record(true, Ok("p"), Err("c")))])).unwrap_err();
    assert_eq!(failed.message(), "read p: c");
}

#[test]
fn takes_files_of_zip_records_up_to_the_first_failure() {
    let record = |is_dir: bool, contents: Result<Vec<u8>, String>| ZipRecord {
        is_dir,
        path: "p".to_string(),
        mode: None,
        contents,
    };
    let files = zip_files(Ok(vec![
        Ok(record(true, Err("c".to_string()))),
        Ok(record(false, Ok(vec![7]))),
    ]))
    .unwrap();
    assert_eq!(files.len(), 1);
    assert_eq!(files[0].contents, vec![7]);
    let failed = zip_files(Err("list".to_string())).unwrap_err();
    assert_eq!(failed.message(), "read zip archive: list");
    let failed = zip_files(Ok(vec![Err("entry".to_string())])).unwrap_err();
    assert_eq!(failed.message(), "read zip entry: entry");
    let failed = zip_files(Ok(vec![Ok(record(false, Err("c".to_string())))])).unwrap_err();
    assert_eq!(failed.message(), "read p: c");
}

#[test]
fn reports_failed_decompression() {
    let failed = bz2_file("x.bz2", Err("d".to_string())).unwrap_err();
    assert_eq!(failed.message(), "decompress bz2 artifact: d");
    let failed = zst_file("x.zst", Ok(Err("d".to_string()))).unwrap_err();
    assert_eq!(failed.message(), "decompress zstd artifact: d");
    let failed = zst_file("x.zst", Err("d".to_string())).unwrap_err();
    assert_eq!(failed.message(), "create zstd decoder: d");
}
