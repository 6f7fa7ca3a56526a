use dalia::parser::{DirEntry, ParseOutcome, Parser};

#[test]
fn test_derived_alias_strips_extension() -> Result<(), String> {
    let mut p = Parser::new("/dir/Notes.txt").unwrap();
    p.process_input()?;
    assert_eq!(1, p.int_rep.len());
    assert_eq!("/dir/Notes.txt", p.int_rep.get("notes").unwrap());
    Ok(())
}

#[test]
fn test_derived_alias_ignores_trailing_separators() -> Result<(), String> {
    let mut p = Parser::new("/some/Dir///").unwrap();
    p.process_input()?;
    assert_eq!(1, p.int_rep.len());
    assert_eq!("/some/Dir///", p.int_rep.get("dir").unwrap());
    Ok(())
}

#[test]
fn test_named_alias_case_preserved() -> Result<(), String> {
    let mut p = Parser::new("[MyPath]/some/path").unwrap();
    p.process_input()?;
    assert_eq!(1, p.int_rep.len());
    assert_eq!("/some/path", p.int_rep.get("MyPath").unwrap());
    assert!(p.int_rep.get("mypath").is_none());
    Ok(())
}

#[test]
fn test_empty_brackets_derive_from_path() -> Result<(), String> {
    let mut p = Parser::new("[]/some/Thing").unwrap();
    p.process_input()?;
    assert_eq!(1, p.int_rep.len());
    assert_eq!("/some/Thing", p.int_rep.get("thing").unwrap());
    Ok(())
}

#[test]
fn test_glob_expansion_three_dirs() -> Result<(), String> {
    let mut p = Parser::new("[*]/tmp/X").unwrap();
    match p.process_input()? {
        ParseOutcome::NeedsDirectory(d) => assert_eq!("/tmp/X", d),
        ParseOutcome::Finished => return Err("expected a directory request".to_string()),
    }
    p.provide_entries(vec![
        DirEntry {
            path: "/tmp/X/one".to_string(),
            is_file: false,
        },
        DirEntry {
            path: "/tmp/X/two".to_string(),
            is_file: false,
        },
        DirEntry {
            path: "/tmp/X/file.txt".to_string(),
            is_file: true,
        },
        DirEntry {
            path: "/tmp/X/three".to_string(),
            is_file: false,
        },
    ]);
    match p.process_input()? {
        ParseOutcome::Finished => {}
        ParseOutcome::NeedsDirectory(_) => return Err("expected completion".to_string()),
    }
    assert_eq!(3, p.int_rep.len());
    assert_eq!("/tmp/X/one", p.int_rep.get("one").unwrap());
    assert_eq!("/tmp/X/two", p.int_rep.get("two").unwrap());
    assert_eq!("/tmp/X/three", p.int_rep.get("three").unwrap());
    assert!(p.int_rep.get("file").is_none());
    Ok(())
}

#[test]
fn test_glob_line_then_plain_line_resumes() -> Result<(), String> {
    let mut p = Parser::new("[*]/srv/projects\n/home/Docs").unwrap();
    match p.process_input()? {
        ParseOutcome::NeedsDirectory(d) => assert_eq!("/srv/projects", d),
        ParseOutcome::Finished => return Err("expected a directory request".to_string()),
    }
    p.provide_entries(vec![DirEntry {
        path: "/srv/projects/Web".to_string(),
        is_file: false,
    }]);
    match p.process_input()? {
        ParseOutcome::Finished => {}
        ParseOutcome::NeedsDirectory(_) => return Err("expected completion".to_string()),
    }
    assert_eq!(2, p.int_rep.len());
    assert_eq!("/srv/projects/Web", p.int_rep.get("web").unwrap());
    assert_eq!("/home/Docs", p.int_rep.get("docs").unwrap());
    Ok(())
}

#[test]
fn test_pending_request_reported_again() -> Result<(), String> {
    let mut p = Parser::new("[*]/tmp/X").unwrap();
    match p.process_input()? {
        ParseOutcome::NeedsDirectory(d) => assert_eq!("/tmp/X", d),
        ParseOutcome::Finished => return Err("expected a directory request".to_string()),
    }
    match p.process_input()? {
        ParseOutcome::NeedsDirectory(d) => assert_eq!("/tmp/X", d),
        ParseOutcome::Finished => return Err("expected the request again".to_string()),
    }
    assert!(p.int_rep.is_empty());
    Ok(())
}

#[test]
fn test_bare_word_fails_with_grammar_mismatch() {
    let mut p = Parser::new("somepath").unwrap();
    let result = p.process_input();
    assert_eq!(
        "expecting PATH; found <'somepath', ALIAS>",
        result.unwrap_err()
    );
}

#[test]
fn test_parse_twice_yields_identical_maps() -> Result<(), String> {
    let input = "[work]/srv/Work\n/home/Music\n[*]/data";
    let run = |text: &str| -> Result<Vec<(String, String)>, String> {
        let mut p = Parser::new(text).unwrap();
        loop {
            match p.process_input()? {
                ParseOutcome::Finished => break,
                ParseOutcome::NeedsDirectory(_) => p.provide_entries(vec![
                    DirEntry {
                        path: "/data/One".to_string(),
                        is_file: false,
                    },
                    DirEntry {
                        path: "/data/two.txt".to_string(),
                        is_file: true,
                    },
                ]),
            }
        }
        let m = p.aliases();
        let mut pairs: Vec<(String, String)> = Vec::new();
        for i in 0..m.len() {
            let (name, path) = m.pair_at(i);
            pairs.push((name.clone(), path.clone()));
        }
        pairs.sort();
        Ok(pairs)
    };
    let first = run(input)?;
    let second = run(input)?;
    assert_eq!(first, second);
    assert_eq!(3, first.len());
    Ok(())
}

#[test]
fn test_last_write_wins_derived() -> Result<(), String> {
    let mut p = Parser::new("/first/Spot\n/second/Spot").unwrap();
    p.process_input()?;
    assert_eq!(1, p.int_rep.len());
    assert_eq!("/second/Spot", p.int_rep.get("spot").unwrap());
    Ok(())
}

#[test]
fn test_last_write_wins_explicit() -> Result<(), String> {
    let mut p = Parser::new("[n]/path/one\n[n]/path/two").unwrap();
    p.process_input()?;
    assert_eq!(1, p.int_rep.len());
    assert_eq!("/path/two", p.int_rep.get("n").unwrap());
    Ok(())
}

#[test]
fn test_construction_fails_on_empty() {
    let r = Parser::new("");
    assert_eq!("no config file found to parse", r.unwrap_err());
}

#[test]
fn test_construction_fails_on_whitespace() {
    let r = Parser::new("    ");
    assert_eq!("no config file found to parse", r.unwrap_err());
}

#[test]
fn test_construction_fails_on_mixed_whitespace() {
    let r = Parser::new(" \t\r\n ");
    assert_eq!("no config file found to parse", r.unwrap_err());
}

#[test]
fn test_construction_fails_on_leading_nul() {
    let r = Parser::new("\0");
    assert_eq!(
        "couldn't create new parser: invalid character \0",
        r.unwrap_err()
    );
}

#[test]
fn test_lexical_error_mid_input() {
    let mut p = Parser::new("/a\n\0").unwrap();
    let result = p.process_input();
    assert_eq!("invalid character \0", result.unwrap_err());
}

#[test]
fn test_missing_file_stem() {
    let mut p = Parser::new("///").unwrap();
    let result = p.process_input();
    assert_eq!("missing file stem in path", result.unwrap_err());
}

#[test]
fn test_aliases_returns_copy_of_map() -> Result<(), String> {
    let mut p = Parser::new("[a]/one\n[b]/two").unwrap();
    p.process_input()?;
    let m = p.aliases();
    assert_eq!(2, m.len());
    assert_eq!("/one", m.get("a").unwrap());
    assert_eq!("/two", m.get("b").unwrap());
    assert!(m.get("c").is_none());
    Ok(())
}

#[test]
fn test_new_parser_has_no_aliases() {
    let p = Parser::new("/some/path").unwrap();
    assert!(p.int_rep.is_empty());
    assert_eq!(0, p.int_rep.len());
}

#[test]
fn test_glob_expansion_skips_files_only_listing() -> Result<(), String> {
    let mut p = Parser::new("[*]/tmp/Y").unwrap();
    match p.process_input()? {
        ParseOutcome::NeedsDirectory(d) => assert_eq!("/tmp/Y", d),
        ParseOutcome::Finished => return Err("expected a directory request".to_string()),
    }
    p.provide_entries(vec![
        DirEntry {
            path: "/tmp/Y/a.txt".to_string(),
            is_file: true,
        },
        DirEntry {
            path: "/tmp/Y/b.txt".to_string(),
            is_file: true,
        },
    ]);
    match p.process_input()? {
        ParseOutcome::Finished => {}
        ParseOutcome::NeedsDirectory(_) => return Err("expected completion".to_string()),
    }
    assert!(p.int_rep.is_empty());
    Ok(())
}

#[test]
fn test_dot_segment_has_no_stem() {
    let mut p = Parser::new(".").unwrap();
    let result = p.process_input();
    assert_eq!("missing file stem in path", result.unwrap_err());
}

#[test]
fn test_parent_dir_segment_has_no_stem() {
    let mut p = Parser::new("/a/..").unwrap();
    let result = p.process_input();
    assert_eq!("missing file stem in path", result.unwrap_err());
}

#[test]
fn test_glob_expansion_skips_dot_segments() -> Result<(), String> {
    let mut p = Parser::new("[*]/tmp/Z").unwrap();
    match p.process_input()? {
        ParseOutcome::NeedsDirectory(d) => assert_eq!("/tmp/Z", d),
        ParseOutcome::Finished => return Err("expected a directory request".to_string()),
    }
    p.provide_entries(vec![
        DirEntry {
            path: "/tmp/Z/..".to_string(),
            is_file: false,
        },
        DirEntry {
            path: "/tmp/Z/Real".to_string(),
            is_file: false,
        },
    ]);
    match p.process_input()? {
        ParseOutcome::Finished => {}
        ParseOutcome::NeedsDirectory(_) => return Err("expected completion".to_string()),
    }
    assert_eq!(1, p.int_rep.len());
    assert_eq!("/tmp/Z/Real", p.int_rep.get("real").unwrap());
    Ok(())
}

#[test]
fn test_glob_expansion_order_independent() -> Result<(), String> {
    let entry = |path: &str| DirEntry {
        path: path.to_string(),
        is_file: false,
    };
    let run = |entries: Vec<DirEntry>| -> Result<Vec<(String, String)>, String> {
        let mut p = Parser::new("[*]/tmp/X").unwrap();
        match p.process_input()? {
            ParseOutcome::NeedsDirectory(_) => p.provide_entries(entries),
            ParseOutcome::Finished => return Err("expected a directory request".to_string()),
        }
        match p.process_input()? {
            ParseOutcome::Finished => {}
            ParseOutcome::NeedsDirectory(_) => return Err("expected completion".to_string()),
        }
        let m = p.aliases();
        let mut pairs: Vec<(String, String)> = Vec::new();
        for i in 0..m.len() {
            let (name, path) = m.pair_at(i);
            pairs.push((name.clone(), path.clone()));
        }
        pairs.sort();
        Ok(pairs)
    };
    let forward = run(vec![
        entry("/tmp/X/one"),
        entry("/tmp/X/two"),
        entry("/tmp/X/three"),
    ])?;
    let shuffled = run(vec![
        entry("/tmp/X/three"),
        entry("/tmp/X/one"),
        entry("/tmp/X/two"),
    ])?;
    assert_eq!(forward, shuffled);
    assert_eq!(3, forward.len());
    Ok(())
}
