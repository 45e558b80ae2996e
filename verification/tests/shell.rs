use rvkernel::programs::clock::{date_line, date_report, listing_time, twelve_hour, Meridiem};
use rvkernel::programs::shell::{directory_listing, directory_lookup, entry_label, interpret, interpret_line, permission_string, resolve_path, DirectoryLookup, Lookup, ShellCommand, Usage};

fn line(wd: &str, input: &str) -> ShellCommand {
    interpret_line(wd, input).1
}

fn strings(v: &[&str]) -> Vec<String> {
    v.iter().map(|s| s.to_string()).collect()
}

#[test]
fn resolve_relative_and_absolute() {
    assert_eq!(resolve_path("/", "a"), "/a");
    assert_eq!(resolve_path("/home/user", "../x/./y"), "/home/x/y");
    assert_eq!(resolve_path("/a/", "b"), "/a/b");
    assert_eq!(resolve_path("/a", "/b/../c"), "/c");
    assert_eq!(resolve_path("/", ".."), "/");
    assert_eq!(resolve_path("/a", ""), "/a");
    assert_eq!(resolve_path("", "x"), "/x");
    assert_eq!(resolve_path("/a//b", "c//"), "/a/b/c");
}

#[test]
fn resolving_twice_changes_nothing() {
    let once = resolve_path("/usr/lib", "../share/./doc/..");
    assert_eq!(once, "/usr/share");
    assert_eq!(resolve_path("/elsewhere", &once), once);
}

#[test]
fn echo_and_simple_commands() {
    match line("/", "echo hello  world") {
        ShellCommand::Echo(text) => assert_eq!(text, "hello world \n"),
        _ => panic!("expected echo"),
    }
    match line("/", "echo") {
        ShellCommand::Echo(text) => assert_eq!(text, "\n"),
        _ => panic!("expected echo"),
    }
    assert!(matches!(line("/", "exit"), ShellCommand::Exit));
    assert!(matches!(line("/", "clear"), ShellCommand::Clear));
    assert!(matches!(line("/", "lsblk"), ShellCommand::ListBlockDevices));
    assert!(matches!(line("/", "date"), ShellCommand::Date));
    assert!(matches!(line("/", "example1"), ShellCommand::RunExample));
    assert!(matches!(line("/", "frobnicate x"), ShellCommand::NotFound));
    assert!(matches!(line("/", "   "), ShellCommand::Nothing));
}

#[test]
fn cd_forms() {
    assert!(matches!(line("/a", "cd"), ShellCommand::ChangeToRoot));
    assert!(matches!(line("/a", "cd x y"), ShellCommand::TooManyArguments));
    match line("/a", "cd ../b") {
        ShellCommand::ChangeDirectory(p) => assert_eq!(p, "/b"),
        _ => panic!("expected cd"),
    }
}

#[test]
fn ls_defaults_to_working_directory() {
    match line("/home", "ls") {
        ShellCommand::List(p) => assert_eq!(p, strings(&["/home"])),
        _ => panic!("expected ls"),
    }
    match line("/home", "ls a /b") {
        ShellCommand::List(p) => assert_eq!(p, strings(&["/home/a", "/b"])),
        _ => panic!("expected ls"),
    }
}

#[test]
fn path_commands_and_usage() {
    match line("/", "mkdir d1 'my dir'") {
        ShellCommand::MakeDirectories(p) => assert_eq!(p, strings(&["/d1", "/my dir"])),
        _ => panic!("expected mkdir"),
    }
    match line("/x", "rmdir d") {
        ShellCommand::RemoveDirectories(p) => assert_eq!(p, strings(&["/x/d"])),
        _ => panic!("expected rmdir"),
    }
    match line("/x", "mkfile f") {
        ShellCommand::MakeFiles(p) => assert_eq!(p, strings(&["/x/f"])),
        _ => panic!("expected mkfile"),
    }
    match line("/x", "rmfile f") {
        ShellCommand::RemoveFiles(p) => assert_eq!(p, strings(&["/x/f"])),
        _ => panic!("expected rmfile"),
    }
    match line("/x", "read f") {
        ShellCommand::ReadFiles(p) => assert_eq!(p, strings(&["/x/f"])),
        _ => panic!("expected read"),
    }
    for (input, usage) in [("mkdir", Usage::Directories), ("rmdir", Usage::Directories), ("mkfile", Usage::Files),
        ("rmfile", Usage::Files), ("read", Usage::Files), ("write", Usage::FileAndData)] {
        match line("/", input) {
            ShellCommand::ShowUsage(u) => assert!(u == usage),
            _ => panic!("expected usage"),
        }
    }
}

#[test]
fn write_collects_lines() {
    match line("/d", "write notes.txt first \"second line\" é") {
        ShellCommand::Write(path, data) => {
            assert_eq!(path, "/d/notes.txt");
            assert_eq!(data, "first\nsecond line\né\n".as_bytes().to_vec());
        }
        _ => panic!("expected write"),
    }
    match line("/", "write f") {
        ShellCommand::Write(path, data) => {
            assert_eq!(path, "/f");
            assert!(data.is_empty());
        }
        _ => panic!("expected write"),
    }
}

#[test]
fn open_quote_is_a_syntax_error() {
    match line("/", "echo 'oops") {
        ShellCommand::SyntaxError(e) => assert_eq!(e.to_string(), "missing closing quote"),
        _ => panic!("expected a syntax error"),
    }
}

#[test]
fn interpret_takes_words() {
    assert!(matches!(interpret("/", Vec::new()), ShellCommand::Nothing));
    match interpret("/", strings(&["cd", "a b"])) {
        ShellCommand::ChangeDirectory(p) => assert_eq!(p, "/a b"),
        _ => panic!("expected cd"),
    }
}

#[test]
fn permissions() {
    assert_eq!(permission_string(0o755), "rwxr-xr-x");
    assert_eq!(permission_string(0o640), "rw-r-----");
    assert_eq!(permission_string(0o40777), "rwxrwxrwx");
    assert_eq!(permission_string(0), "---------");
}

#[test]
fn entry_labels() {
    assert_eq!(entry_label(2, "docs"), "\x1b[34mdocs\x1b[0m");
    assert_eq!(entry_label(1, "a.txt"), "a.txt");
}

#[test]
fn date_report_values() {
    let r = date_report(1_767_225_600 + 13 * 3600 + 5 * 60 + 9).ok().unwrap();
    assert_eq!((r.parts.year, r.parts.month, r.parts.day), (2026, 1, 1));
    assert_eq!(r.parts.weekday, 3);
    assert_eq!((r.parts.hour, r.parts.minute, r.parts.second), (1, 5, 9));
    assert!(r.meridiem == Meridiem::Pm);
    let epoch = date_report(0).ok().unwrap();
    assert_eq!((epoch.parts.year, epoch.parts.month, epoch.parts.day, epoch.parts.hour), (1970, 1, 1, 0));
    assert!(epoch.meridiem == Meridiem::Am);
    assert!(date_report(i64::MAX as u64).is_err());
}

#[test]
fn twelve_hour_clock() {
    assert!(twelve_hour(0) == (0, Meridiem::Am));
    assert!(twelve_hour(12) == (0, Meridiem::Pm));
    assert!(twelve_hour(23) == (11, Meridiem::Pm));
    assert!(twelve_hour(30) == (6, Meridiem::Neither));
}

#[test]
fn listing_times() {
    let t = listing_time(86_400 + 3_660).unwrap();
    assert_eq!((t.month, t.day, t.hour, t.minute), (1, 2, 1, 1));
    assert!(listing_time(i64::MAX).is_none());
}

#[test]
fn line_reports_command_name() {
    let (name, command) = interpret_line("/", "  mkdir");
    assert_eq!(name, "mkdir");
    assert!(matches!(command, ShellCommand::ShowUsage(Usage::Directories)));
    let (name, _) = interpret_line("/", "");
    assert_eq!(name, "");
    let (name, command) = interpret_line("/", "\"open");
    assert_eq!(name, "");
    assert!(matches!(command, ShellCommand::SyntaxError(_)));
}

#[test]
fn directory_lookup_decides_cd_and_ls() {
    assert!(matches!(directory_lookup("/home", Lookup::Directory), DirectoryLookup::Open));
    assert!(matches!(directory_lookup("/home", Lookup::Failed), DirectoryLookup::FileSystemError));
    match directory_lookup("/notes.txt", Lookup::OtherFile) {
        DirectoryLookup::Refused(message) => assert_eq!(message, "/notes.txt: Not a directory"),
        other => panic!("unexpected {:?}", other),
    }
    match directory_lookup("/nowhere", Lookup::Missing) {
        DirectoryLookup::Refused(message) => assert_eq!(message, "/nowhere: Not a file or directory"),
        other => panic!("unexpected {:?}", other),
    }
}

#[test]
fn relative_path_is_working_directory_joined() {
    for (wd, input) in [("/home", "docs"), ("/home/", "docs/../notes"), ("/", ".."), ("/a/b", "./c//d/")] {
        let joined = format!("{}/{}", wd, input);
        assert_eq!(resolve_path(wd, input), resolve_path("/", &joined));
    }
    assert_eq!(resolve_path("/home", "docs"), "/home/docs");
}

#[test]
fn resolved_path_holds_only_names() {
    assert_eq!(resolve_path("/a/", "./b//c/.."), "/a/b");
    assert_eq!(resolve_path("/a", "../../.."), "/");
}

#[test]
fn date_line_names_weekday_and_month() {
    let report = date_report(0).ok().expect("the epoch is in range");
    assert_eq!(date_line(&report), "Thursday January 1 00:00:00 AM UTC 1970");
    let report = date_report(1_700_000_000).ok().expect("in range");
    assert_eq!(date_line(&report), "Tuesday November 14 10:13:20 PM UTC 2023");
}

fn dir_entry(inode: u32, name: &str, file_type: u8, rec_len: u16) -> Vec<u8> {
    let mut e = Vec::new();
    e.extend_from_slice(&inode.to_le_bytes());
    e.extend_from_slice(&rec_len.to_le_bytes());
    e.push(name.len() as u8);
    e.push(file_type);
    e.extend_from_slice(name.as_bytes());
    e.resize(rec_len as usize, 0);
    e
}

#[test]
fn directory_listing_prints_one_line_per_entry() {
    let mut block = dir_entry(2, ".", 2, 12);
    block.extend(dir_entry(0, "gone", 1, 16));
    block.extend(dir_entry(12, "notes.txt", 1, 20));
    block.extend(dir_entry(13, "docs", 2, 16));
    let time = listing_time(0);
    let lines = directory_listing(&block, 0o755, 1000, 100, time);
    assert_eq!(
        lines,
        vec![
            "rwxr-xr-x 1000 100 January 1 00:00 \x1b[34m.\x1b[0m".to_string(),
            "rwxr-xr-x 1000 100 January 1 00:00 notes.txt".to_string(),
            "rwxr-xr-x 1000 100 January 1 00:00 \x1b[34mdocs\x1b[0m".to_string(),
        ]
    );
    let lines = directory_listing(&block[..12], 0o640, 0, 0, None);
    assert_eq!(lines, vec!["rw-r----- 0 0 Time/Date Error \x1b[34m.\x1b[0m".to_string()]);
}
