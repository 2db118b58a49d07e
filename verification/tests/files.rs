use callgraph::file::analyse_files;
use callgraph::file::collect_functions;
use callgraph::file::extract_filename;
use callgraph::file::extract_functions_with_content;
use callgraph::file::has_source_extension;
use callgraph::file::visit_entry;
use callgraph::file::CodeFile;
use callgraph::file::EntryKind;
use callgraph::file::SourceText;
use callgraph::file::Visit;
use callgraph::function::Function;
use callgraph::syntax::SourceItem;

fn source(path: &str, code: &str) -> SourceText {
    SourceText { path: path.to_string(), code: code.to_string() }
}

fn names_of(file: &CodeFile) -> Vec<String> {
    file.get_functions().iter().map(|function| function.get_name()).collect()
}

fn bodies_of(file: &CodeFile) -> Vec<String> {
    file.get_functions().iter().map(|function| function.get_body()).collect()
}

#[test]
fn new_file_has_name_and_no_functions() {
    let file = CodeFile::new("a.rs".to_string());
    assert_eq!(file.get_name(), "a.rs");
    assert_eq!(file.get_functions(), Vec::<Function>::new());
}

#[test]
fn add_function_keeps_order_of_addition() {
    let mut file = CodeFile::new("a.rs".to_string());
    file.add_function(Function::new("second".to_string(), "{ }".to_string()));
    file.add_function(Function::new("first".to_string(), "{ 1 }".to_string()));
    file.add_function(Function::new("second".to_string(), "{ 2 }".to_string()));
    assert_eq!(names_of(&file), vec!["second", "first", "second"]);
    assert_eq!(bodies_of(&file), vec!["{ }", "{ 1 }", "{ 2 }"]);
    assert_eq!(file.get_name(), "a.rs");
}

#[test]
fn get_functions_hands_out_copies() {
    let mut file = CodeFile::new("a.rs".to_string());
    file.add_function(Function::new("foo".to_string(), "{ }".to_string()));
    let mut copies = file.get_functions();
    copies[0].add_calls(vec!["foo".to_string()]);
    assert_eq!(file.get_functions()[0].get_calls(), Vec::<String>::new());
}

#[test]
fn get_functions_mut_changes_the_file() {
    let mut file = CodeFile::new("a.rs".to_string());
    file.add_function(Function::new("foo".to_string(), "{ }".to_string()));
    file.add_function(Function::new("bar".to_string(), "{ }".to_string()));
    for function in file.get_functions_mut().iter_mut() {
        let name = function.get_name();
        function.add_calls(vec![name]);
    }
    assert_eq!(file.get_functions()[0].get_calls(), vec!["foo"]);
    assert_eq!(file.get_functions()[1].get_calls(), vec!["bar"]);
    assert_eq!(file.get_name(), "a.rs");
}

#[test]
fn extract_filename_drops_directories() {
    assert_eq!(extract_filename("src/file.rs"), "file.rs");
    assert_eq!(extract_filename("/abs/path/to/main.rs"), "main.rs");
    assert_eq!(extract_filename("./a/b/c.rs"), "c.rs");
    assert_eq!(extract_filename("../up.rs"), "up.rs");
    assert_eq!(extract_filename("plain.rs"), "plain.rs");
    assert_eq!(extract_filename("dir.with.dots/name"), "name");
}

#[test]
fn extract_filename_skips_empty_and_dot_segments() {
    assert_eq!(extract_filename("dir/"), "dir");
    assert_eq!(extract_filename("dir///"), "dir");
    assert_eq!(extract_filename("a//b"), "b");
    assert_eq!(extract_filename("a/b/."), "b");
    assert_eq!(extract_filename("a/./"), "a");
    assert_eq!(extract_filename("a/././/"), "a");
    assert_eq!(extract_filename(".hidden"), ".hidden");
    assert_eq!(extract_filename("a/..."), "...");
}

#[test]
fn extract_filename_is_empty_where_no_name_ends_the_path() {
    assert_eq!(extract_filename(""), "");
    assert_eq!(extract_filename("/"), "");
    assert_eq!(extract_filename("//"), "");
    assert_eq!(extract_filename("."), "");
    assert_eq!(extract_filename("./"), "");
    assert_eq!(extract_filename("/."), "");
    assert_eq!(extract_filename(".."), "");
    assert_eq!(extract_filename("a/.."), "");
    assert_eq!(extract_filename("a/../"), "");
    assert_eq!(extract_filename("a/../."), "");
}

#[test]
fn extract_filename_takes_a_backslash_for_part_of_a_name() {
    assert_eq!(extract_filename("a\\b/c\\d.rs"), "c\\d.rs");
    assert_eq!(extract_filename("C:\\dir\\file.rs"), "C:\\dir\\file.rs");
}

#[test]
fn extract_filename_agrees_with_std_paths() {
    let paths = [
        "", "/", ".", "..", "a", "a/", "a/.", "a/..", "./a", "../a", "a/b.rs", "a//b.rs/",
        "/a/./b/./", ".rs", "a/.rs", "..rs", "x/..rs/.", "naïve/süß.rs", "樹/木", "a b/c d.rs",
        "a/.../b", "...", "/a//..//", "./.", "a/b/../c",
    ];
    for path in paths {
        let expected = std::path::Path::new(path)
            .file_name()
            .map(|name| name.to_string_lossy().to_string())
            .unwrap_or_default();
        assert_eq!(extract_filename(path), expected);
    }
}

#[test]
fn extract_filename_gives_a_file_name_or_nothing() {
    let paths = [
        "", "/", ".", "..", "a", "a/", "a/.", "a/..", "./a", "../a", "a/b.rs", "a//b.rs/",
        "/a/./b/./", ".rs", "x/..rs/.", "a/.../b", "...", "/a//..//", "./.", "a/b/../c", "//x//",
    ];
    for path in paths {
        let name = extract_filename(path);
        assert!(!name.contains('/'));
        assert_ne!(name, ".");
        assert_ne!(name, "..");
        if !name.is_empty() {
            assert_eq!(extract_filename(&name), name);
            assert_eq!(extract_filename(&format!("{}/{}", path, name)), name);
            assert_eq!(extract_filename(&format!("/{}", name)), name);
        }
    }
}

#[test]
fn source_extension_is_recognized() {
    assert!(has_source_extension("main.rs"));
    assert!(has_source_extension("src/deep/er/lib.rs"));
    assert!(has_source_extension("a.b.rs"));
    assert!(has_source_extension("..rs"));
    assert!(has_source_extension("dir/x.rs/"));
    assert!(has_source_extension("dir/x.rs/."));
    assert!(has_source_extension("é.rs"));
}

#[test]
fn other_extensions_are_not_recognized() {
    assert!(!has_source_extension(""));
    assert!(!has_source_extension("rs"));
    assert!(!has_source_extension(".rs"));
    assert!(!has_source_extension("dir/.rs"));
    assert!(!has_source_extension("main.rs.bak"));
    assert!(!has_source_extension("main.RS"));
    assert!(!has_source_extension("mainrs"));
    assert!(!has_source_extension("main.rs/.."));
    assert!(!has_source_extension("a.rs/b.txt"));
    assert!(!has_source_extension("main.r"));
    assert!(!has_source_extension("main.rss"));
    assert!(!has_source_extension("main.ars"));
}

#[test]
fn source_extension_agrees_with_std_paths() {
    let paths = [
        "", "rs", ".rs", "a.rs", "a.b.rs", "..rs", "a/.rs", "a.rs/", "a.rs/.", "a.rs/..",
        "a.rs.bak", "a.RS", "dir.rs/file", "x/y/z.rs", "ä.rs", "a.rsx", "a.xrs", "...rs", "a.",
        "a..rs",
    ];
    for path in paths {
        let extension = std::path::Path::new(path).extension();
        let expected = extension.map(|extension| extension == "rs").unwrap_or(false);
        assert_eq!(has_source_extension(path), expected);
    }
}

#[test]
fn visit_takes_source_files_only() {
    assert_eq!(visit_entry(EntryKind::File, "dir/main.rs"), Visit::Collect);
    assert_eq!(visit_entry(EntryKind::File, "dir/sub/a.b.rs"), Visit::Collect);
    assert_eq!(visit_entry(EntryKind::File, "dir/notes.txt"), Visit::Skip);
    assert_eq!(visit_entry(EntryKind::File, "dir/Makefile"), Visit::Skip);
    assert_eq!(visit_entry(EntryKind::File, "dir/.rs"), Visit::Skip);
    assert_eq!(visit_entry(EntryKind::File, "dir/main.rs.orig"), Visit::Skip);
}

#[test]
fn visit_descends_into_every_directory() {
    assert_eq!(visit_entry(EntryKind::Directory, "dir/src"), Visit::Descend);
    assert_eq!(visit_entry(EntryKind::Directory, "dir/odd.rs"), Visit::Descend);
    assert_eq!(visit_entry(EntryKind::Directory, ""), Visit::Descend);
}

#[test]
fn visit_passes_over_what_is_neither_file_nor_directory() {
    assert_eq!(visit_entry(EntryKind::Other, "dir/socket"), Visit::Skip);
    assert_eq!(visit_entry(EntryKind::Other, "dir/dangling.rs"), Visit::Skip);
}

#[test]
fn collect_functions_keeps_functions_in_order() {
    let items = vec![
        SourceItem::Other,
        SourceItem::Function { name: "b".to_string(), body: "{ a () }".to_string() },
        SourceItem::Other,
        SourceItem::Other,
        SourceItem::Function { name: "a".to_string(), body: "{ }".to_string() },
        SourceItem::Function { name: "b".to_string(), body: "{ 2 }".to_string() },
    ];
    let file = collect_functions("x.rs".to_string(), items);
    assert_eq!(file.get_name(), "x.rs");
    assert_eq!(names_of(&file), vec!["b", "a", "b"]);
    assert_eq!(bodies_of(&file), vec!["{ a () }", "{ }", "{ 2 }"]);
    for function in file.get_functions() {
        assert_eq!(function.get_calls(), Vec::<String>::new());
    }
}

#[test]
fn collect_functions_of_no_functions_is_an_empty_file() {
    let none = collect_functions("x.rs".to_string(), Vec::new());
    assert_eq!(none, CodeFile::new("x.rs".to_string()));
    let items = vec![SourceItem::Other, SourceItem::Other];
    let others = collect_functions("y.rs".to_string(), items);
    assert_eq!(others, CodeFile::new("y.rs".to_string()));
}

#[test]
fn extraction_reads_names_and_bodies() {
    let file = extract_functions_with_content(
        "some/dir/a.rs",
        "fn foo() {}
         fn bar() { foo(); }
         fn baz(x: u32) -> u32 { if x > 0 { baz(x - 1) } else { 0 } }",
    )
    .unwrap();
    assert_eq!(file.get_name(), "a.rs");
    assert_eq!(names_of(&file), vec!["foo", "bar", "baz"]);
    assert_eq!(
        bodies_of(&file),
        vec!["{ }", "{ foo () ; }", "{ if x > 0 { baz (x - 1) } else { 0 } }"]
    );
    for function in file.get_functions() {
        assert_eq!(function.get_calls(), Vec::<String>::new());
    }
}

#[test]
fn extraction_rewrites_the_body_token_by_token() {
    let file = extract_functions_with_content(
        "a.rs",
        "fn  spaced ( )   {\n    // a comment\n    let   x=1 ;\n\n    call( x ,\"text\" ) ;\n}",
    )
    .unwrap();
    assert_eq!(names_of(&file), vec!["spaced"]);
    assert_eq!(bodies_of(&file), vec!["{ let x = 1 ; call (x , \"text\") ; }"]);
}

#[test]
fn extraction_reads_only_top_level_functions() {
    let code = "
        use std::fmt;
        struct S;
        impl S { fn method(&self) {} }
        mod inner { pub fn hidden() {} }
        trait T { fn provided(&self) {} }
        pub fn outer() { fn nested() {} nested(); }
        const C: u32 = 1;
        pub(crate) async unsafe fn last<T>(t: T) -> T { t }
    ";
    let file = extract_functions_with_content("lib.rs", code).unwrap();
    assert_eq!(names_of(&file), vec!["outer", "last"]);
    assert_eq!(bodies_of(&file), vec!["{ fn nested () { } nested () ; }", "{ t }"]);
}

#[test]
fn extraction_of_a_file_without_functions_is_empty() {
    assert_eq!(
        extract_functions_with_content("e.rs", "").unwrap(),
        CodeFile::new("e.rs".to_string())
    );
    assert_eq!(
        extract_functions_with_content("dir/s.rs", "struct Only;").unwrap(),
        CodeFile::new("s.rs".to_string())
    );
}

#[test]
fn extraction_accepts_byte_order_mark_and_shebang() {
    let code = "\u{feff}#!/usr/bin/env run\nfn main() {}";
    let file = extract_functions_with_content("x.rs", code).unwrap();
    assert_eq!(names_of(&file), vec!["main"]);
}

#[test]
fn extraction_writes_raw_identifiers_with_their_prefix() {
    let file = extract_functions_with_content("x.rs", "fn r#try() { r#try() }").unwrap();
    assert_eq!(names_of(&file), vec!["r#try"]);
    assert_eq!(bodies_of(&file), vec!["{ r#try () }"]);
}

#[test]
fn extraction_rejects_what_does_not_parse() {
    let error = extract_functions_with_content("bad/b.rs", "fn broken( {").unwrap_err();
    assert_eq!(error.path, "bad/b.rs");
    assert_eq!(error.message, "cannot parse string into token stream");
    let error = extract_functions_with_content("c.rs", "fn f() { } }").unwrap_err();
    assert_eq!(error.path, "c.rs");
    assert!(!error.message.is_empty());
    let error = extract_functions_with_content("d.rs", "fn f() { } struct").unwrap_err();
    assert_eq!(error.path, "d.rs");
    assert_eq!(error.message, "unexpected end of input, expected identifier");
}

#[test]
fn extraction_fails_as_a_whole_on_one_bad_function() {
    let code = "fn good() {}\nfn bad() { let = ; }\nfn fine() {}";
    let result = extract_functions_with_content("x.rs", code);
    assert!(result.is_err());
}

#[test]
fn analyse_files_of_nothing_is_empty() {
    assert_eq!(analyse_files(&Vec::new()), Ok(Vec::new()));
}

#[test]
fn analyse_files_makes_one_file_per_text_in_order() {
    let sources = vec![
        source("z/b.rs", "fn two() { one(); }"),
        source("a.rs", "fn one() {}"),
        source("sub/a.rs", "struct Nothing;"),
    ];
    let files = analyse_files(&sources).unwrap();
    assert_eq!(files.len(), 3);
    assert_eq!(files[0].get_name(), "b.rs");
    assert_eq!(names_of(&files[0]), vec!["two"]);
    assert_eq!(bodies_of(&files[0]), vec!["{ one () ; }"]);
    assert_eq!(files[1].get_name(), "a.rs");
    assert_eq!(names_of(&files[1]), vec!["one"]);
    assert_eq!(files[2].get_name(), "a.rs");
    assert_eq!(names_of(&files[2]), Vec::<String>::new());
    for (file, text) in files.iter().zip(sources.iter()) {
        assert_eq!(*file, extract_functions_with_content(&text.path, &text.code).unwrap());
    }
}

#[test]
fn analyse_files_fails_with_the_first_bad_text() {
    let sources = vec![
        source("good.rs", "fn good() {}"),
        source("first_bad.rs", "fn ( {"),
        source("fine.rs", "fn fine() {}"),
        source("second_bad.rs", "struct"),
    ];
    let error = analyse_files(&sources).unwrap_err();
    assert_eq!(error.path, "first_bad.rs");
    assert_eq!(error, extract_functions_with_content("first_bad.rs", "fn ( {").unwrap_err());
}
