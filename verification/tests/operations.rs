use esycpy::args::{ArgsType, Operation};
use esycpy::enumerate::{enumerate, WalkItem};
use esycpy::error::{ErrorKind, JobError};
use esycpy::executor::{file_op, DestinationProbe, FsAction};
use esycpy::mapper::{fix_offset, flatten};
use esycpy::normalize::fix_path;
use esycpy::operations::{FileOp, Paths};
use esycpy::pattern::{classify, get_ext, ClassifiedSource};
use esycpy::validator::is_dst_valid;

fn fix_path_vec(v: &mut Vec<Paths>) {
    for p in v {
        p.from = fix_path(p.from.as_str());
        p.to = fix_path(p.to.as_str());
    }
}

/// What a walk of the tree `f1.file`, `d1/f11.file`, `d1/d12/f12.file`,
/// `d3/f3.img` below `root` finds.
fn sample_walk(root: &str) -> Vec<WalkItem> {
    vec![
        WalkItem::Other(String::from(root)),
        WalkItem::Other(format!("{}/d1", root)),
        WalkItem::Other(format!("{}/d1/d12", root)),
        WalkItem::File(format!("{}/d1/d12/f12.file", root)),
        WalkItem::File(format!("{}/d1/f11.file", root)),
        WalkItem::Other(format!("{}/d3", root)),
        WalkItem::File(format!("{}/d3/f3.img", root)),
        WalkItem::File(format!("{}/f1.file", root)),
    ]
}

fn pair(from: &str, to: &str) -> Paths {
    Paths {
        from: String::from(from),
        to: String::from(to),
    }
}

fn drive_c() -> Vec<String> {
    vec![String::from("c:")]
}

#[test]
fn dst_valid() {
    assert_eq!(is_dst_valid("c:/users/test/invalid_path", &drive_c()), true);
    assert_eq!(is_dst_valid(" c:/users/test/invalid_path", &drive_c()), false);
    assert_eq!(is_dst_valid(" \\Debug\\bin", &drive_c()), false);
    assert_eq!(is_dst_valid("c:\\users\\Debug\\bin", &drive_c()), true);
}

#[test]
fn check_fix_offset() {
    assert_eq!(
        fix_offset(
            &Paths {
                from: String::from("c:/Users/test/dir1"),
                to: String::from("c:/Users/test/dir2")
            },
            "c:/Users/test/dir1/dir3/dir4/a_file"
        ),
        Ok(String::from("c:/Users/test/dir2/dir3/dir4/a_file"))
    );
}

#[test]
fn check_get_src_dst_paths() {
    let s_src = String::from("./test_files/test_src_dst_paths");
    let s_dst = String::from("/tmp/esycpy/dst");
    let file_op = FileOp::from(
        ArgsType::CmdLine {
            op: Operation::Move,
            from: s_src.clone(),
            to: s_dst.clone(),
        },
        true,
    )
    .unwrap();
    let mut v_returned = file_op
        .get_src_dst_paths(&s_src, &sample_walk(&s_src), "", false, false)
        .unwrap();
    fix_path_vec(&mut v_returned);
    v_returned.sort_unstable();
    let mut v_test: Vec<Paths> = vec![
        pair(
            "./test_files/test_src_dst_paths/f1.file",
            "/tmp/esycpy/dst/f1.file",
        ),
        pair(
            "./test_files/test_src_dst_paths/d1/f11.file",
            "/tmp/esycpy/dst/d1/f11.file",
        ),
        pair(
            "./test_files/test_src_dst_paths/d1/d12/f12.file",
            "/tmp/esycpy/dst/d1/d12/f12.file",
        ),
        pair(
            "./test_files/test_src_dst_paths/d3/f3.img",
            "/tmp/esycpy/dst/d3/f3.img",
        ),
    ];
    fix_path_vec(&mut v_test);
    v_test.sort_unstable();
    assert_eq!(v_returned, v_test);
}

#[test]
fn check_paths_specific_file_only_cur_dir() {
    let s_src = String::from("./test_files/test_src_dst_paths/*.file");
    let s_dst = String::from("/tmp/esycpy/dst");
    let file_op = FileOp::from(
        ArgsType::CmdLine {
            op: Operation::Move,
            from: s_src.clone(),
            to: s_dst.clone(),
        },
        false,
    )
    .unwrap();
    let root = String::from("./test_files/test_src_dst_paths");
    let mut v_returned = file_op
        .get_src_dst_paths(&root, &sample_walk(&root), ".file", true, true)
        .unwrap();
    fix_path_vec(&mut v_returned);
    v_returned.sort_unstable();
    let mut v_test: Vec<Paths> = vec![pair(
        "./test_files/test_src_dst_paths/f1.file",
        "/tmp/esycpy/dst/f1.file",
    )];
    fix_path_vec(&mut v_test);
    v_test.sort_unstable();
    assert_eq!(v_returned, v_test);
}

#[test]
fn check_paths_recursive_specific_file_type() {
    let s_src = String::from("./test_files/test_src_dst_paths/**.file");
    let s_dst = String::from("/tmp/esycpy/dst");
    let file_op = FileOp::from(
        ArgsType::CmdLine {
            op: Operation::Move,
            from: s_src.clone(),
            to: s_dst.clone(),
        },
        false,
    )
    .unwrap();
    let root = String::from("./test_files/test_src_dst_paths");
    let mut v_returned = file_op
        .get_src_dst_paths(&root, &sample_walk(&root), ".file", false, true)
        .unwrap();
    fix_path_vec(&mut v_returned);
    v_returned.sort_unstable();
    let mut v_test: Vec<Paths> = vec![
        pair(
            "./test_files/test_src_dst_paths/f1.file",
            "/tmp/esycpy/dst/f1.file",
        ),
        pair(
            "./test_files/test_src_dst_paths/d1/f11.file",
            "/tmp/esycpy/dst/f11.file",
        ),
        pair(
            "./test_files/test_src_dst_paths/d1/d12/f12.file",
            "/tmp/esycpy/dst/f12.file",
        ),
    ];
    fix_path_vec(&mut v_test);
    v_test.sort_unstable();
    assert_eq!(v_returned, v_test);
}

#[test]
fn get_ext_() {
    assert_eq!(get_ext("*"), "");
    assert_eq!(get_ext("*.txt"), ".txt");
    assert_eq!(get_ext("**.file"), ".file");
    assert_eq!(get_ext("**"), "");
    assert_eq!(get_ext("**suffix"), "suffix");
}

#[test]
fn files_from_only_this_dir() {}

#[test]
fn the_extension_follows_the_last_wildcard() {
    assert_eq!(get_ext("a*b"), "b");
    assert_eq!(get_ext("**a*b"), "b");
    assert_eq!(get_ext("*a**"), "");
}

#[test]
fn a_bare_wildcard_takes_the_directory_flat_and_unfiltered() {
    assert_eq!(
        classify("root/*", false),
        Ok(ClassifiedSource::Filtered {
            root: String::from("root"),
            extension: String::from(""),
            recursive: false,
        })
    );
    assert_eq!(
        classify("c:\\yo\\man\\*", true),
        Ok(ClassifiedSource::Filtered {
            root: String::from("c:\\yo\\man"),
            extension: String::from(""),
            recursive: false,
        })
    );
}

#[test]
fn a_double_wildcard_is_recursive_with_its_suffix() {
    assert_eq!(
        classify("root/**.file", false),
        Ok(ClassifiedSource::Filtered {
            root: String::from("root"),
            extension: String::from(".file"),
            recursive: true,
        })
    );
    assert_eq!(
        classify("/**SUFFIX", false),
        Ok(ClassifiedSource::Filtered {
            root: String::from("/"),
            extension: String::from("SUFFIX"),
            recursive: true,
        })
    );
    assert_eq!(
        classify("*.mercury", false),
        Ok(ClassifiedSource::Filtered {
            root: String::from(""),
            extension: String::from(".mercury"),
            recursive: false,
        })
    );
}

#[test]
fn without_a_wildcard_the_file_system_decides() {
    assert_eq!(
        classify("root/d1", true),
        Ok(ClassifiedSource::SingleDirectory(String::from("root/d1")))
    );
    assert_eq!(
        classify("root/d1", false),
        Ok(ClassifiedSource::SingleFile(String::from("root/d1")))
    );
}

#[test]
fn a_source_without_a_final_segment_is_invalid() {
    assert_eq!(
        classify("", false),
        Err(JobError {
            kind: ErrorKind::InvalidSource,
            path: String::from(""),
        })
    );
    assert_eq!(
        classify("/", true),
        Err(JobError {
            kind: ErrorKind::InvalidSource,
            path: String::from("/"),
        })
    );
}

#[test]
fn a_source_that_ends_with_two_dots_is_invalid() {
    for source in ["a/..", "..", "/..", "a/../", "."] {
        for is_dir in [true, false] {
            assert_eq!(
                classify(source, is_dir),
                Err(JobError {
                    kind: ErrorKind::InvalidSource,
                    path: String::from(source),
                })
            );
        }
    }
    assert_eq!(
        FileOp::from(
            ArgsType::CmdLine {
                op: Operation::Copy_,
                from: String::from("a/.."),
                to: String::from("dest"),
            },
            true,
        ),
        Err(JobError {
            kind: ErrorKind::InvalidSource,
            path: String::from("a/.."),
        })
    );
}

#[test]
fn a_single_dot_at_the_end_is_passed_over_in_classification() {
    assert_eq!(
        classify("dir/*/.", false),
        Ok(ClassifiedSource::Filtered {
            root: String::from("dir"),
            extension: String::from(""),
            recursive: false,
        })
    );
    assert_eq!(
        classify("dir/.", true),
        Ok(ClassifiedSource::SingleDirectory(String::from("dir/.")))
    );
    assert_eq!(
        classify("dir/**.txt/./", true),
        Ok(ClassifiedSource::Filtered {
            root: String::from("dir"),
            extension: String::from(".txt"),
            recursive: true,
        })
    );
}

#[test]
fn a_flat_search_stays_in_the_root() {
    let found = enumerate("root", false, "", &sample_walk("root")).unwrap();
    assert_eq!(found, vec![String::from("root/f1.file")]);
    let found = enumerate("root/d1", false, "", &sample_walk("root")).unwrap();
    assert_eq!(found, vec![String::from("root/d1/f11.file")]);
}

#[test]
fn a_search_takes_regular_files_only() {
    let walk = vec![
        WalkItem::Other(String::from("root")),
        WalkItem::Other(String::from("root/a.file")),
        WalkItem::File(String::from("root/b.file")),
    ];
    assert_eq!(
        enumerate("root", true, ".file", &walk),
        Ok(vec![String::from("root/b.file")])
    );
}

#[test]
fn the_filter_matches_anywhere_in_the_name() {
    let walk = vec![
        WalkItem::File(String::from("root/song.ogg")),
        WalkItem::File(String::from("root/notaogg.txt")),
        WalkItem::File(String::from("root/a.ogg.bak")),
        WalkItem::File(String::from("root/.ogg/plain.txt")),
    ];
    assert_eq!(
        enumerate("root", true, ".ogg", &walk),
        Ok(vec![
            String::from("root/song.ogg"),
            String::from("root/a.ogg.bak"),
        ])
    );
    assert_eq!(
        enumerate("root", true, "ogg", &walk),
        Ok(vec![
            String::from("root/song.ogg"),
            String::from("root/notaogg.txt"),
            String::from("root/a.ogg.bak"),
        ])
    );
}

#[test]
fn hidden_files_pass_only_without_a_filter() {
    let walk = vec![
        WalkItem::File(String::from("root/.hidden.file")),
        WalkItem::File(String::from("root/seen.file")),
    ];
    assert_eq!(
        enumerate("root", false, ".file", &walk),
        Ok(vec![String::from("root/seen.file")])
    );
    assert_eq!(
        enumerate("root", false, "", &walk),
        Ok(vec![
            String::from("root/.hidden.file"),
            String::from("root/seen.file"),
        ])
    );
}

#[test]
fn a_search_leaves_out_what_lies_beside_the_root() {
    let walk = vec![
        WalkItem::File(String::from("rootling/a.file")),
        WalkItem::File(String::from("other/a.file")),
        WalkItem::File(String::from("root/a.file")),
        WalkItem::File(String::from("root//b.file")),
    ];
    assert_eq!(
        enumerate("root", true, "", &walk),
        Ok(vec![
            String::from("root/a.file"),
            String::from("root//b.file"),
        ])
    );
    assert_eq!(
        enumerate("root/", false, "", &walk),
        Ok(vec![
            String::from("root/a.file"),
            String::from("root//b.file"),
        ])
    );
}

#[test]
fn every_path_lies_below_the_empty_root() {
    let walk = vec![
        WalkItem::File(String::from("a.file")),
        WalkItem::File(String::from("d1/b.file")),
    ];
    assert_eq!(
        enumerate("", true, "", &walk),
        Ok(vec![String::from("a.file"), String::from("d1/b.file")])
    );
    assert_eq!(
        enumerate("", false, ".file", &walk),
        Ok(vec![String::from("a.file")])
    );
    let job = FileOp::from(
        ArgsType::CmdLine {
            op: Operation::Copy_,
            from: String::from("**"),
            to: String::from("dest"),
        },
        false,
    )
    .unwrap();
    assert_eq!(job.walk_root(), Some((String::from(""), true)));
    assert_eq!(
        job.process(&walk),
        Ok(vec![
            pair("a.file", "dest/a.file"),
            pair("d1/b.file", "dest/d1/b.file"),
        ])
    );
}

#[test]
fn a_failed_walk_is_a_traversal_error() {
    let walk = vec![WalkItem::File(String::from("root/a.file")), WalkItem::Failed];
    assert_eq!(
        enumerate("root", true, "", &walk),
        Err(JobError {
            kind: ErrorKind::TraversalError,
            path: String::from("root"),
        })
    );
    let job = FileOp::from(
        ArgsType::CmdLine {
            op: Operation::Copy_,
            from: String::from("missing"),
            to: String::from("dest"),
        },
        true,
    )
    .unwrap();
    assert_eq!(
        job.process(&vec![WalkItem::Failed]),
        Err(JobError {
            kind: ErrorKind::TraversalError,
            path: String::from("missing"),
        })
    );
}

#[test]
fn flatten_keeps_the_name_only() {
    assert_eq!(
        flatten("dest", "root/d1/d12/f12.file"),
        Ok(String::from("dest/f12.file"))
    );
    assert_eq!(
        flatten("dest", "/"),
        Err(JobError {
            kind: ErrorKind::InvalidPath,
            path: String::from("/"),
        })
    );
}

#[test]
fn the_offset_is_carried_over_letter_for_letter() {
    assert_eq!(
        fix_offset(&pair("c:\\src", "d:\\dst"), "c:\\src\\a\\b.txt"),
        Ok(String::from("d:\\dst\\a\\b.txt"))
    );
    assert_eq!(
        fix_offset(&pair("root/", "dest"), "root/a/b.txt"),
        Ok(String::from("dest/a/b.txt"))
    );
    assert_eq!(
        fix_offset(&pair("root", "dest/"), "root/a/b.txt"),
        Ok(String::from("dest/a/b.txt"))
    );
    assert_eq!(
        fix_offset(&pair("/", "dest"), "/a.txt"),
        Ok(String::from("dest/a.txt"))
    );
    assert_eq!(
        fix_offset(&pair("c:\\", "d:\\dst"), "c:\\a.txt"),
        Ok(String::from("d:\\dst/a.txt"))
    );
}

#[test]
fn below_the_empty_root_the_whole_source_is_the_offset() {
    assert_eq!(
        fix_offset(&pair("", "dest"), "a/b.txt"),
        Ok(String::from("dest/a/b.txt"))
    );
    assert_eq!(
        fix_offset(&pair("", ""), "a/b.txt"),
        Ok(String::from("a/b.txt"))
    );
    assert_eq!(
        fix_offset(&pair("", "dest"), "/a/b.txt"),
        Err(JobError {
            kind: ErrorKind::InvalidPath,
            path: String::from("/a/b.txt"),
        })
    );
    assert_eq!(
        fix_offset(&pair("", "dest"), ""),
        Err(JobError {
            kind: ErrorKind::InvalidPath,
            path: String::from(""),
        })
    );
}

#[test]
fn mapping_a_destination_again_gives_it_back() {
    let once = fix_offset(&pair("root", "dest"), "root/d1/f11.file").unwrap();
    let twice = fix_offset(&pair("dest", "dest"), once.as_str()).unwrap();
    assert_eq!(once, "dest/d1/f11.file");
    assert_eq!(twice, once);
}

#[test]
fn an_offset_that_cuts_a_segment_is_invalid() {
    let invalid = |source: &str| {
        Err(JobError {
            kind: ErrorKind::InvalidPath,
            path: String::from(source),
        })
    };
    assert_eq!(fix_offset(&pair("root", "dest"), "rooted/a.txt"), invalid("rooted/a.txt"));
    assert_eq!(fix_offset(&pair("root", "dest"), "root"), invalid("root"));
    assert_eq!(fix_offset(&pair("root", "dest"), "root/"), invalid("root/"));
    assert_eq!(fix_offset(&pair("root", "dest"), "other/a.txt"), invalid("other/a.txt"));
    assert_eq!(fix_offset(&pair("root/deep", "dest"), "root"), invalid("root"));
    assert_eq!(fix_offset(&pair("root", "dest"), "root//a"), invalid("root//a"));
    assert_eq!(fix_offset(&pair("root/", "dest"), "root//a"), invalid("root//a"));
}

#[test]
fn a_directory_that_is_moved_is_one_pair() {
    let job = FileOp::from(
        ArgsType::CmdLine {
            op: Operation::Move,
            from: String::from("root"),
            to: String::from("dest"),
        },
        true,
    )
    .unwrap();
    assert_eq!(job.walk_root(), None);
    assert_eq!(job.process(&Vec::new()), Ok(vec![pair("root", "dest")]));
}

#[test]
fn a_directory_that_is_copied_keeps_its_shape() {
    for op in [Operation::Copy_, Operation::Hardlink] {
        let job = FileOp::from(
            ArgsType::CmdLine {
                op,
                from: String::from("root"),
                to: String::from("dest"),
            },
            true,
        )
        .unwrap();
        assert_eq!(job.walk_root(), Some((String::from("root"), true)));
        assert_eq!(
            job.process(&sample_walk("root")),
            Ok(vec![
                pair("root/d1/d12/f12.file", "dest/d1/d12/f12.file"),
                pair("root/d1/f11.file", "dest/d1/f11.file"),
                pair("root/d3/f3.img", "dest/d3/f3.img"),
                pair("root/f1.file", "dest/f1.file"),
            ])
        );
    }
}

#[test]
fn a_single_file_is_its_own_pair() {
    let job = FileOp::from(
        ArgsType::CmdLine {
            op: Operation::Hardlink,
            from: String::from("src/sample_file"),
            to: String::from("dst/sample_file"),
        },
        false,
    )
    .unwrap();
    assert_eq!(job.walk_root(), None);
    assert_eq!(
        job.process(&vec![WalkItem::Failed]),
        Ok(vec![pair("src/sample_file", "dst/sample_file")])
    );
}

#[test]
fn a_filter_on_the_top_level_yields_the_top_level_file() {
    let job = FileOp::from(
        ArgsType::CmdLine {
            op: Operation::Copy_,
            from: String::from("root/*.file"),
            to: String::from("dest"),
        },
        false,
    )
    .unwrap();
    assert_eq!(job.walk_root(), Some((String::from("root"), false)));
    assert_eq!(
        job.process(&sample_walk("root")),
        Ok(vec![pair("root/f1.file", "dest/f1.file")])
    );
}

#[test]
fn a_recursive_filter_flattens_what_it_finds() {
    let job = FileOp::from(
        ArgsType::CmdLine {
            op: Operation::Copy_,
            from: String::from("root/**.file"),
            to: String::from("dest"),
        },
        false,
    )
    .unwrap();
    assert_eq!(job.walk_root(), Some((String::from("root"), true)));
    assert_eq!(
        job.process(&sample_walk("root")),
        Ok(vec![
            pair("root/d1/d12/f12.file", "dest/f12.file"),
            pair("root/d1/f11.file", "dest/f11.file"),
            pair("root/f1.file", "dest/f1.file"),
        ])
    );
}

#[test]
fn a_recursive_wildcard_without_suffix_keeps_the_offsets() {
    let job = FileOp::from(
        ArgsType::CmdLine {
            op: Operation::Copy_,
            from: String::from("root/**"),
            to: String::from("dest"),
        },
        false,
    )
    .unwrap();
    assert_eq!(
        job.process(&sample_walk("root")),
        Ok(vec![
            pair("root/d1/d12/f12.file", "dest/d1/d12/f12.file"),
            pair("root/d1/f11.file", "dest/d1/f11.file"),
            pair("root/d3/f3.img", "dest/d3/f3.img"),
            pair("root/f1.file", "dest/f1.file"),
        ])
    );
}

#[test]
fn a_walk_of_a_file_has_no_offset_to_keep() {
    let job = FileOp::from(
        ArgsType::CmdLine {
            op: Operation::Copy_,
            from: String::from("root"),
            to: String::from("dest"),
        },
        true,
    )
    .unwrap();
    assert_eq!(
        job.process(&vec![WalkItem::File(String::from("root"))]),
        Err(JobError {
            kind: ErrorKind::InvalidPath,
            path: String::from("root"),
        })
    );
}

fn probe(existing: &[&str], is_file: bool, read_only: bool) -> DestinationProbe {
    DestinationProbe {
        source_exists: true,
        existing: existing.iter().map(|p| String::from(*p)).collect(),
        is_file,
        read_only,
    }
}

#[test]
fn an_unreachable_destination_stops_the_job_before_any_write() {
    assert_eq!(is_dst_valid(" /invalid/path", &vec![String::from("/")]), false);
    assert_eq!(
        file_op(
            Operation::Copy_,
            &pair("/src/sample_file", " /invalid/path"),
            &probe(&["/"], false, false)
        ),
        Err(JobError {
            kind: ErrorKind::UnreachableDestination,
            path: String::from(" /invalid/path"),
        })
    );
}

#[test]
fn a_destination_is_reachable_through_any_ancestor() {
    let existing = vec![String::from("/tmp")];
    assert!(is_dst_valid("/tmp/a/b/c", &existing));
    assert!(is_dst_valid("/tmp/a", &existing));
    assert!(is_dst_valid("/tmp", &existing));
    assert!(!is_dst_valid("/", &existing));
    assert!(!is_dst_valid("/var/a", &existing));
    assert!(!is_dst_valid("/tmp/a", &Vec::new()));
}

#[test]
fn a_missing_source_stops_the_job_before_any_write() {
    let mut seen = probe(&["/tmp"], false, false);
    seen.source_exists = false;
    assert_eq!(
        file_op(Operation::Hardlink, &pair("/tmp/src/sample_file", "/tmp/dst/sample_file"), &seen),
        Err(JobError {
            kind: ErrorKind::OperationFailure,
            path: String::from("/tmp/src/sample_file"),
        })
    );
}

#[test]
fn a_missing_parent_is_made_first() {
    assert_eq!(
        file_op(
            Operation::Copy_,
            &pair("/tmp/src/sample_file", "/tmp/dst/sample_file"),
            &probe(&["/tmp"], false, false)
        ),
        Ok(vec![
            FsAction::CreateDirAll(String::from("/tmp/dst")),
            FsAction::Copy {
                from: String::from("/tmp/src/sample_file"),
                to: String::from("/tmp/dst/sample_file"),
            },
        ])
    );
}

#[test]
fn a_file_in_the_way_is_removed() {
    assert_eq!(
        file_op(
            Operation::Hardlink,
            &pair("/tmp/src/sample_file", "/tmp/dst/sample_file"),
            &probe(&["/tmp", "/tmp/dst", "/tmp/dst/sample_file"], true, false)
        ),
        Ok(vec![
            FsAction::RemoveFile(String::from("/tmp/dst/sample_file")),
            FsAction::HardLink {
                from: String::from("/tmp/src/sample_file"),
                to: String::from("/tmp/dst/sample_file"),
            },
        ])
    );
}

#[test]
fn a_read_only_file_in_the_way_is_unlocked_and_removed() {
    assert_eq!(
        file_op(
            Operation::Move,
            &pair("/tmp/src/sample_file", "/tmp/dst/sample_file"),
            &probe(&["/tmp/dst", "/tmp/dst/sample_file"], true, true)
        ),
        Ok(vec![
            FsAction::ClearReadOnly(String::from("/tmp/dst/sample_file")),
            FsAction::RemoveFile(String::from("/tmp/dst/sample_file")),
            FsAction::Rename {
                from: String::from("/tmp/src/sample_file"),
                to: String::from("/tmp/dst/sample_file"),
            },
        ])
    );
}

#[test]
fn an_error_says_what_went_wrong_and_where() {
    let error = JobError::new(ErrorKind::UnreachableDestination, " /invalid/path");
    assert_eq!(error.message(), "unreachable destination:  /invalid/path");
    assert_eq!(
        JobError::new(ErrorKind::InvalidSource, "").message(),
        "invalid source: "
    );
    assert_eq!(
        JobError::new(ErrorKind::TraversalError, "root").message(),
        "cannot walk: root"
    );
    assert_eq!(
        JobError::new(ErrorKind::InvalidPath, "a").message(),
        "invalid path: a"
    );
    assert_eq!(
        JobError::new(ErrorKind::OperationFailure, "a").message(),
        "operation failed: a"
    );
}

#[test]
fn the_offset_agrees_with_a_relative_path_below_the_root() {
    let cases = [
        ("root", "dest", "root/f1.file"),
        ("root", "dest", "root/d1/d12/f12.file"),
        ("/srv/data", "/mnt/copy", "/srv/data/a/b/c.bin"),
        ("./test_files/test_src_dst_paths", "/tmp/esycpy/dst", "./test_files/test_src_dst_paths/d3/f3.img"),
        ("root/", "dest", "root/d1/f11.file"),
        ("root", "dest/", "root/d1/f11.file"),
        ("", "dest", "d1/f11.file"),
        ("", "", "f1.file"),
        ("/", "/mnt/copy", "/a/b"),
        ("dir/.", "dest", "dir/./a/b"),
    ];
    for (root, dest, source) in cases {
        let offset = pathdiff::diff_paths(source, root).unwrap();
        let expected = std::path::Path::new(dest)
            .join(offset)
            .to_string_lossy()
            .into_owned();
        assert_eq!(fix_offset(&pair(root, dest), source), Ok(expected));
    }
}

#[test]
fn the_extension_agrees_with_the_pattern_for_leading_wildcards() {
    let pattern = regex::Regex::new(r"\**(.*)$").unwrap();
    for segment in ["*", "*.txt", "**.file", "**", "**suffix", "***.a.b", "*.tar.gz"] {
        let captures = pattern.captures(segment).unwrap();
        assert_eq!(get_ext(segment), &captures[1]);
    }
}
