use csgo_loader::payload::{
    check_runtime_layout, missing_runtime_file_message, read_archive_file, runtime_file_path,
    terminate, terminate_all, write_error_message, ExtractionStep, LuaExtraction, Product,
};
use std::io::{Cursor, Write};
use zip::write::SimpleFileOptions;
use zip::{CompressionMethod, ZipWriter};

fn archive(entries: &[(&str, &[u8])], dirs: &[&str]) -> Vec<u8> {
    let mut writer = ZipWriter::new(Cursor::new(Vec::new()));
    let options = SimpleFileOptions::default().compression_method(CompressionMethod::Stored);
    for dir in dirs {
        writer.add_directory(*dir, options).unwrap();
    }
    for (name, data) in entries {
        writer.start_file(*name, options).unwrap();
        writer.write_all(data).unwrap();
    }
    writer.finish().unwrap().into_inner()
}

#[test]
fn products_name_their_files() {
    let files = Product::Neverlose.files();
    assert_eq!(files.executable, "injector.exe");
    assert_eq!(files.library, "neverlose.dll");
    assert_eq!(files.runtime_dir, "payload");
    assert_eq!(files.archive_name, "neverlose-payload.zip");
    let files = Product::Primordial.files();
    assert_eq!(files.executable, "primo.exe");
    assert_eq!(files.library, "primordial-csgo.dll");
    let files = Product::Gamesense.files();
    assert_eq!(files.executable, "skeet-insecure.exe");
    assert_eq!(files.runtime_dir, "gamesense-payload");
}

#[test]
fn terminating_products() {
    assert_eq!(terminate(Product::Primordial).args[1], "primo.exe");
    let all = terminate_all();
    assert_eq!(all.len(), 3);
    assert_eq!(all[0].args[1], "injector.exe");
    assert_eq!(all[2].args[1], "skeet-insecure.exe");
    assert_eq!(all[1].program, "taskkill.exe");
}

#[test]
fn reads_a_product_file_by_name_in_any_case() {
    let files = Product::Neverlose.files();
    let zip = archive(&[("payload/INJECTOR.EXE", b"exe"), ("neverlose.dll", b"dll")], &[]);
    assert_eq!(read_archive_file(&files, &zip, "injector.exe"), Ok(b"exe".to_vec()));
    assert_eq!(read_archive_file(&files, &zip, "neverlose.dll"), Ok(b"dll".to_vec()));
    assert_eq!(
        read_archive_file(&files, &zip, "x.dll"),
        Err("Embedded payload x.dll was not found in neverlose-payload.zip".to_string())
    );
}

#[test]
fn unreadable_archive_is_reported() {
    let files = Product::Gamesense.files();
    let err = read_archive_file(&files, b"not a zip", "skeet.dll").unwrap_err();
    assert!(err.starts_with("Failed to read embedded payload archive gamesense-payload.zip: "));
}

#[test]
fn runtime_file_messages() {
    assert_eq!(runtime_file_path(r"C:\rt", "a.dll"), r"C:\rt\a.dll");
    assert_eq!(
        write_error_message("a.dll", r"C:\p\a.dll", "denied", Some(32)),
        "Не удалось обновить a.dll: файл занят запущенным процессом (код 32)."
    );
    assert_eq!(
        write_error_message("a.dll", r"C:\p\a.dll", "denied", Some(5)),
        r"Не удалось записать a.dll в C:\p\a.dll: denied (код 5)."
    );
    assert_eq!(
        write_error_message("a.dll", r"C:\p\a.dll", "denied", Some(-7)),
        r"Не удалось записать a.dll в C:\p\a.dll: denied (код -7)."
    );
    assert_eq!(
        write_error_message("a.dll", r"C:\p\a.dll", "denied", None),
        r"Не удалось записать a.dll в C:\p\a.dll: denied."
    );
    assert_eq!(
        missing_runtime_file_message(r"C:\p\a.dll"),
        r"Runtime file C:\p\a.dll was not created."
    );
}

#[test]
fn runtime_files_must_share_the_directory() {
    assert_eq!(check_runtime_layout(r"C:\rt", r"C:\rt\a.exe", r"C:\rt\b.dll"), Ok(()));
    assert_eq!(check_runtime_layout(r"C:\rt\", "c:/rt/a.exe", r"C:\rt\.\b.dll"), Ok(()));
    assert_eq!(
        check_runtime_layout(r"C:\rt", r"C:\other\a.exe", r"C:\rt\b.dll"),
        Err(r"Payload files must be in the same runtime directory. exe: C:\other\a.exe, dll: C:\rt\b.dll, dir: C:\rt".to_string())
    );
    assert!(check_runtime_layout(r"C:\rt", r"C:\RT\a.exe", r"C:\rt\b.dll").is_err());
}

#[test]
fn lua_extraction_steps_through_the_archive() {
    let zip = archive(&[("json.lua", b"return {}"), ("base64.lua", b"x")], &["lib"]);
    let mut extraction = LuaExtraction::new(&zip, r"D:\L").ok().unwrap();
    match extraction.next_step() {
        Ok(Some(ExtractionStep::CreateDir(path))) => assert!(path.starts_with(r"D:\L\lib")),
        _ => panic!("expected a directory"),
    }
    match extraction.next_step() {
        Ok(Some(ExtractionStep::WriteFile { path, parent, contents })) => {
            assert_eq!(path, r"D:\L\json.lua");
            assert_eq!(parent, Some(r"D:\L".to_string()));
            assert_eq!(contents, Ok(b"return {}".to_vec()));
        }
        _ => panic!("expected a file"),
    }
    assert!(matches!(extraction.next_step(), Ok(Some(ExtractionStep::WriteFile { .. }))));
    assert!(matches!(extraction.next_step(), Ok(None)));
    assert_eq!(extraction.check_extracted(), Ok(()));
    assert_eq!(extraction.check_installed(2), Ok(()));
    assert_eq!(
        extraction.check_installed(0),
        Err(r"Lua libraries were not installed into D:\L. Extracted 2 files from archive, but target directory is empty.".to_string())
    );
}

#[test]
fn lua_extraction_of_an_empty_archive_fails() {
    let zip = archive(&[], &["only_a_dir"]);
    let mut extraction = LuaExtraction::new(&zip, r"D:\L").ok().unwrap();
    assert!(matches!(extraction.next_step(), Ok(Some(ExtractionStep::CreateDir(_)))));
    assert!(matches!(extraction.next_step(), Ok(None)));
    assert_eq!(
        extraction.check_extracted(),
        Err("Embedded ZIP archive lua_libs.zip did not contain any files to extract.".to_string())
    );
    let err = LuaExtraction::new(b"junk", r"D:\L").err().unwrap();
    assert!(err.starts_with("Failed to read embedded ZIP archive lua_libs.zip: "));
}

#[test]
fn every_product_archive_contains_its_executable_and_library() {
    for product in [Product::Neverlose, Product::Primordial, Product::Gamesense] {
        let files = product.files();
        let zip = archive(
            &[(files.executable, b"MZ executable"), (files.library, b"MZ library")],
            &[],
        );
        assert!(!read_archive_file(&files, &zip, files.executable).unwrap().is_empty());
        assert!(!read_archive_file(&files, &zip, files.library).unwrap().is_empty());
    }
}

fn describe_run(zip: &[u8], dir: &str) -> (Vec<String>, Result<(), String>) {
    let mut extraction = LuaExtraction::new(zip, dir).ok().unwrap();
    let mut steps = Vec::new();
    loop {
        match extraction.next_step() {
            Ok(Some(ExtractionStep::CreateDir(p))) => steps.push(format!("dir {p}")),
            Ok(Some(ExtractionStep::WriteFile { path, parent, contents })) => {
                steps.push(format!("file {path} {parent:?} {contents:?}"))
            }
            Ok(None) => break,
            Err(e) => return (steps, Err(e)),
        }
    }
    (steps, extraction.check_extracted().and_then(|_| extraction.check_installed(2)))
}

#[test]
fn extracting_twice_takes_the_same_steps() {
    let zip = archive(&[("lib/a.lua", b"return 1"), ("b.lua", b"x")], &["lib/"]);
    let first = describe_run(&zip, r"D:\L");
    let second = describe_run(&zip, r"D:\L");
    assert_eq!(first.1, Ok(()));
    assert_eq!(first.0.len(), 3);
    assert_eq!(first, second);
}
