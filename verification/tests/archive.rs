use dsh_xlink::archive::{
    check_extract_dir, extraction_outcome, judge_entries, judge_tarball, publish_plan, unpacking_outcome,
    relative_archive_path, ArchiveEntry, ExtractFault, ARCHIVE_ROOT, EXTRACT_DIR, FLAG_DIRECTORY, FLAG_FILE,
    FLAG_HARD_LINK, MAX_UNPACKED_BYTES,
};
use flate2::{write::GzEncoder, Compression};
use tar::{Builder, EntryType, Header};

fn entry(path: &str, flag: u8, size: u64) -> Result<ArchiveEntry, String> {
    Ok(ArchiveEntry { path: Ok(path.to_string()), flag, size: Ok(size) })
}

#[test]
fn rejects_archive_escape_components() {
    assert!(relative_archive_path("package/../../outside", false).is_err());
    assert!(relative_archive_path("/tmp/outside", false).is_err());
    assert!(relative_archive_path("other/file.js", false).is_err());
}

#[test]
fn refusals_name_their_reason() {
    assert_eq!(
        relative_archive_path("other/file.js", false),
        Err("归档根目录必须是 package/，收到 other".to_string())
    );
    assert_eq!(
        relative_archive_path("/tmp/outside", false),
        Err("归档包含非法路径：/tmp/outside".to_string())
    );
    assert_eq!(relative_archive_path("", false), Err("归档包含非法路径：".to_string()));
    assert_eq!(
        relative_archive_path("package/a/../b", false),
        Err("归档包含越界路径：package/a/../b".to_string())
    );
    assert_eq!(
        relative_archive_path("package/.dsh-id", false),
        Err("归档覆盖了外壳保留路径：.dsh-id".to_string())
    );
    assert_eq!(
        relative_archive_path("package/.dsh-extract/x", false),
        Err("归档覆盖了外壳保留路径：.dsh-extract/x".to_string())
    );
}

#[test]
fn accepted_paths_lose_the_root() {
    assert_eq!(relative_archive_path("package/lib/index.js", false), Ok("lib/index.js".to_string()));
    assert_eq!(relative_archive_path("package/./lib//index.js", false), Ok("lib/index.js".to_string()));
    assert_eq!(relative_archive_path("package/", false), Ok("".to_string()));
    assert_eq!(relative_archive_path("package/sub/.dsh-id", false), Ok("sub/.dsh-id".to_string()));
    assert_eq!(ARCHIVE_ROOT, "package");
}

#[test]
fn extracts_package_root_without_links() {
    let encoder = GzEncoder::new(Vec::new(), Compression::fast());
    let mut builder = Builder::new(encoder);
    let body = b"export default 1;\n";
    let mut header = Header::new_gnu();
    header.set_size(body.len() as u64);
    header.set_mode(0o644);
    header.set_cksum();
    builder.append_data(&mut header, "package/lib/index.js", body.as_slice()).unwrap();
    let bytes = builder.into_inner().unwrap().finish().unwrap();

    assert_eq!(judge_tarball(&bytes, false).verdict, Ok("export default 1;\n".len() as u64));
    assert_eq!(relative_archive_path("package/lib/index.js", false), Ok("lib/index.js".to_string()));
    let plan = publish_plan(true, "/dest", &vec!["lib".to_string()], &vec![]).unwrap();
    assert_eq!(plan.len(), 1);
    assert_eq!(plan[0].name, "lib");
    assert_eq!(plan[0].target, "/dest/lib");
}

#[test]
fn rejects_archive_links_before_publishing() {
    let encoder = GzEncoder::new(Vec::new(), Compression::fast());
    let mut builder = Builder::new(encoder);
    let mut header = Header::new_gnu();
    header.set_entry_type(EntryType::Symlink);
    header.set_size(0);
    header.set_link_name("../../outside").unwrap();
    header.set_path("package/link").unwrap();
    header.set_cksum();
    builder.append(&header, &[][..]).unwrap();
    let bytes = builder.into_inner().unwrap().finish().unwrap();

    let error = judge_tarball(&bytes, false).verdict.expect_err("links must be rejected");
    assert!(error.contains("符号链接"));
    assert_eq!(error, "归档不允许符号链接或硬链接：package/link");
}

#[test]
fn bytes_that_are_no_archive_are_refused() {
    let error = judge_tarball(b"not a gzip stream", false).verdict.expect_err("no archive");
    assert!(error.starts_with("读取归档条目失败："), "{error}");
}

#[test]
fn entries_are_judged_in_order() {
    let entries = vec![
        entry("package/a", FLAG_FILE, 10),
        entry("package/b", FLAG_DIRECTORY, 0),
        entry("package/c", FLAG_FILE, 5),
    ];
    assert_eq!(judge_entries(&entries, false).verdict, Ok(15));
    let entries = vec![
        entry("package/a", FLAG_HARD_LINK, 10),
        entry("elsewhere", FLAG_FILE, 1),
    ];
    assert_eq!(
        judge_entries(&entries, false).verdict,
        Err("归档不允许符号链接或硬链接：package/a".to_string())
    );
    let entries = vec![entry("package/dev", 51, 0)];
    assert_eq!(
        judge_entries(&entries, false).verdict,
        Err("归档包含不支持的文件类型：package/dev".to_string())
    );
    let entries = vec![Err("broken".to_string())];
    assert_eq!(judge_entries(&entries, false).verdict, Err("读取归档条目失败：broken".to_string()));
    assert_eq!(judge_entries(&entries, false).passed, entries.len() - 1);
}

#[test]
fn unreadable_headers_are_refused() {
    let entries = vec![Ok(ArchiveEntry {
        path: Err("bad name".to_string()),
        flag: FLAG_FILE,
        size: Ok(1),
    })];
    assert_eq!(judge_entries(&entries, false).verdict, Err("读取归档路径失败：bad name".to_string()));
    let entries = vec![Ok(ArchiveEntry {
        path: Ok("package/x".to_string()),
        flag: FLAG_FILE,
        size: Err("bad size".to_string()),
    })];
    assert_eq!(judge_entries(&entries, false).verdict, Err("读取归档大小失败：bad size".to_string()));
}

#[test]
fn sizes_are_bounded() {
    let entries = vec![entry("package/a", FLAG_FILE, MAX_UNPACKED_BYTES)];
    assert_eq!(judge_entries(&entries, false).verdict, Ok(536_870_912));
    let entries = vec![
        entry("package/a", FLAG_FILE, MAX_UNPACKED_BYTES),
        entry("package/b", FLAG_FILE, 1),
    ];
    assert_eq!(
        judge_entries(&entries, false).verdict,
        Err("归档展开大小超过上限（512 MiB）".to_string())
    );
    let entries = vec![
        entry("package/a", FLAG_FILE, 1),
        entry("package/b", FLAG_FILE, u64::MAX),
    ];
    assert_eq!(judge_entries(&entries, false).verdict, Err("归档展开大小溢出".to_string()));
}

#[test]
fn too_many_entries_are_refused() {
    let mut entries = Vec::new();
    for _ in 0..100_000 {
        entries.push(entry("package/a", FLAG_FILE, 0));
    }
    assert_eq!(judge_entries(&entries, false).verdict, Ok(0));
    entries.push(entry("package/a", FLAG_FILE, 0));
    assert_eq!(judge_entries(&entries, false).verdict, Err("归档条目超过上限（100000）".to_string()));
}

#[test]
fn nothing_is_published_over_what_is_there() {
    assert_eq!(
        publish_plan(false, "/dest", &vec![], &vec![]).err(),
        Some("归档缺少 package/ 根目录".to_string())
    );
    let names = vec!["lib".to_string(), "package.json".to_string()];
    assert_eq!(
        publish_plan(true, "/dest", &names, &vec!["package.json".to_string()]).err(),
        Some("解包目标已有同名路径：/dest/package.json".to_string())
    );
}

#[test]
fn the_first_error_of_an_extraction_counts() {
    assert_eq!(extraction_outcome(Ok(()), Ok(())), Ok(()));
    assert_eq!(
        extraction_outcome(Err("a".to_string()), Err("b".to_string())),
        Err("a".to_string())
    );
    assert_eq!(
        extraction_outcome(Ok(()), Err("b".to_string())),
        Err("清理解包临时目录失败：b".to_string())
    );
    assert_eq!(check_extract_dir("/d", false), Ok(format!("/d/{EXTRACT_DIR}")));
    assert_eq!(
        check_extract_dir("/d", true),
        Err("解包临时目录已被占用：/d/.dsh-extract".to_string())
    );
}

#[test]
fn files_that_cannot_be_dealt_with_are_reported() {
    assert_eq!(ExtractFault::NoDest("e".into()).message(), "创建解包目录失败：e");
    assert_eq!(ExtractFault::NoExtractDir("e".into()).message(), "创建解包临时目录失败：e");
    assert_eq!(ExtractFault::NoTarball("e".into()).message(), "打开归档失败：e");
    assert_eq!(ExtractFault::NotListed("e".into()).message(), "读取解包目录失败：e");
    assert_eq!(ExtractFault::EntryNotRead("e".into()).message(), "读取解包条目失败：e");
    assert_eq!(
        ExtractFault::NotUnpacked { path: "package/a".into(), error: "e".into() }.message(),
        "解包 package/a 失败：e"
    );
    assert_eq!(
        ExtractFault::NotPublished { target: "/d/a".into(), error: "e".into() }.message(),
        "发布解包文件 /d/a 失败：e"
    );
}

#[test]
fn windows_reads_backslashes_in_entries() {
    assert!(relative_archive_path("package/..\\x", true).is_err());
    assert_eq!(relative_archive_path("package\\lib\\x.js", true), Ok("lib/x.js".to_string()));
    assert!(relative_archive_path("package\\x", false).is_err());
    assert_eq!(
        relative_archive_path("C:\\package\\x", true),
        Err("归档包含非法路径：C:\\package\\x".to_string())
    );
    assert_eq!(relative_archive_path("package/a\\b", false), Ok("a\\b".to_string()));
}

#[test]
fn what_fails_first_is_told() {
    assert_eq!(
        unpacking_outcome(Err("unpack".into()), Err("judge".into())),
        Err("unpack".to_string())
    );
    assert_eq!(unpacking_outcome(Ok(()), Err("judge".into())), Err("judge".to_string()));
    assert_eq!(unpacking_outcome(Ok(()), Ok(3)), Ok(3));
}
