use vstd::prelude::*;
use shell_words::ParseError;
use vstd::string::StrSliceExecFns;
use crate::text::{decimal, push_decimal, push_str, str_chars, string_from_chars};
use crate::programs::clock::{listing_time_text, push_listing_time, DateParts};

verus! {

/// The path named by `input` from the directory `wd`, before `.` and `..`
/// are resolved: `input` itself when absolute, else `wd`, a `/` unless `wd`
/// ends with one, then `input`.
pub open spec fn joined_path(wd: Seq<char>, input: Seq<char>) -> Seq<char> {
    if input.len() > 0 && input[0] == '/' {
        input
    } else if wd.len() > 0 && wd.last() == '/' {
        wd + input
    } else {
        wd + seq!['/'] + input
    }
}

/// The pieces of `s` between slashes, as `str::split('/')` yields them:
/// one more piece than there are slashes, some of them empty.
pub open spec fn split_slash(s: Seq<char>) -> Seq<Seq<char>>
    decreases s.len(),
{
    if s.len() == 0 {
        seq![Seq::<char>::empty()]
    } else {
        let pieces = split_slash(s.drop_last());
        if s.last() == '/' {
            pieces.push(Seq::empty())
        } else {
            pieces.update(pieces.len() - 1, pieces.last().push(s.last()))
        }
    }
}

/// The directory names left after one more piece of a path: an empty piece
/// and `.` change nothing, `..` drops the last name if there is one, any
/// other piece is appended.
pub open spec fn step_into(names: Seq<Seq<char>>, piece: Seq<char>) -> Seq<Seq<char>> {
    if piece.len() == 0 || piece == seq!['.'] {
        names
    } else if piece == seq!['.', '.'] {
        if names.len() > 0 { names.drop_last() } else { names }
    } else {
        names.push(piece)
    }
}

/// The directory names that the pieces of a path lead to from the root.
pub open spec fn resolve_pieces(pieces: Seq<Seq<char>>) -> Seq<Seq<char>>
    decreases pieces.len(),
{
    if pieces.len() == 0 {
        Seq::empty()
    } else {
        step_into(resolve_pieces(pieces.drop_last()), pieces.last())
    }
}

/// The names joined with `/` between them.
pub open spec fn join_slash(names: Seq<Seq<char>>) -> Seq<char>
    decreases names.len(),
{
    if names.len() == 0 {
        Seq::empty()
    } else if names.len() == 1 {
        names[0]
    } else {
        join_slash(names.drop_last()) + seq!['/'] + names.last()
    }
}

/// The absolute, normalised path that `input` names from `wd`.
pub open spec fn normalized_path(wd: Seq<char>, input: Seq<char>) -> Seq<char> {
    seq!['/'] + join_slash(resolve_pieces(split_slash(joined_path(wd, input))))
}

/// The character sequences held by a list of character vectors.
pub open spec fn views(vs: Seq<Vec<char>>) -> Seq<Seq<char>> {
    vs.map_values(|v: Vec<char>| v@)
}

fn is_dot(piece: &Vec<char>) -> (b: bool)
    ensures
        b == (piece@ == seq!['.']),
{
    let r = piece.len() == 1 && piece[0] == '.';
    assert(r ==> piece@ =~= seq!['.']);
    r
}

fn is_dot_dot(piece: &Vec<char>) -> (b: bool)
    ensures
        b == (piece@ == seq!['.', '.']),
{
    let r = piece.len() == 2 && piece[0] == '.' && piece[1] == '.';
    assert(r ==> piece@ =~= seq!['.', '.']);
    r
}

fn apply_piece(names: &mut Vec<Vec<char>>, piece: Vec<char>)
    ensures
        views(final(names)@) == step_into(views(old(names)@), piece@),
{
    if piece.len() == 0 || is_dot(&piece) {
    } else if is_dot_dot(&piece) {
        if names.len() > 0 {
            names.pop();
            assert(views(names@) =~= views(old(names)@).drop_last());
        }
    } else {
        assert(piece@.len() != 0 && piece@ != seq!['.'] && piece@ != seq!['.', '.']);
        names.push(piece);
        assert(views(names@) =~= views(old(names)@).push(piece@));
    }
}

/// The absolute path that `input_path` names from the directory
/// `working_directory`, with `.` and `..` resolved and empty names dropped.
pub fn resolve_path(working_directory: &str, input_path: &str) -> (path: String)
    ensures
        path@ == normalized_path(working_directory@, input_path@),
{
    let wd = str_chars(working_directory);
    let input = str_chars(input_path);
    let mut joined: Vec<char> = Vec::new();
    if input.len() > 0 && input[0] == '/' {
        append_chars(&mut joined, &input);
    } else {
        append_chars(&mut joined, &wd);
        if !(wd.len() > 0 && wd[wd.len() - 1] == '/') {
            joined.push('/');
        }
        append_chars(&mut joined, &input);
    }
    assert(joined@ =~= joined_path(working_directory@, input_path@));
    let mut names: Vec<Vec<char>> = Vec::new();
    let mut piece: Vec<char> = Vec::new();
    let mut i: usize = 0;
    while i < joined.len()
        invariant
            i <= joined@.len(),
            split_slash(joined@.take(i as int)).len() > 0,
            views(names@) == resolve_pieces(split_slash(joined@.take(i as int)).drop_last()),
            piece@ == split_slash(joined@.take(i as int)).last(),
        decreases joined@.len() - i,
    {
        let c = joined[i];
        let ghost before = joined@.take(i as int);
        assert(joined@.take(i + 1).drop_last() =~= before);
        assert(joined@.take(i + 1).last() == c);
        if c == '/' {
            let mut done: Vec<char> = Vec::new();
            std::mem::swap(&mut done, &mut piece);
            apply_piece(&mut names, done);
            assert(split_slash(before).push(Seq::empty()).drop_last() =~= split_slash(before));
        } else {
            piece.push(c);
            let ghost pieces = split_slash(before);
            assert(pieces.update(pieces.len() - 1, pieces.last().push(c)).drop_last() =~= pieces.drop_last());
        }
        i = i + 1;
    }
    assert(joined@.take(i as int) =~= joined@);
    apply_piece(&mut names, piece);
    let mut out: Vec<char> = Vec::new();
    out.push('/');
    let mut k: usize = 0;
    while k < names.len()
        invariant
            k <= names@.len(),
            out@ == seq!['/'] + join_slash(views(names@).take(k as int)),
        decreases names@.len() - k,
    {
        let ghost prev = views(names@).take(k as int);
        if k > 0 {
            out.push('/');
        }
        append_chars(&mut out, &names[k]);
        assert(views(names@).take(k + 1).drop_last() =~= prev);
        assert(views(names@).take(k + 1).last() == names@[k as int]@);
        if k == 0 {
            assert(views(names@).take(1) =~= seq![names@[0]@]);
        }
        assert(out@ =~= seq!['/'] + join_slash(views(names@).take(k + 1)));
        k = k + 1;
    }
    assert(views(names@).take(k as int) =~= views(names@));
    string_from_chars(out)
}

fn append_chars(out: &mut Vec<char>, chars: &Vec<char>)
    ensures
        final(out)@ == old(out)@ + chars@,
{
    let mut i: usize = 0;
    while i < chars.len()
        invariant
            i <= chars@.len(),
            out@ == old(out)@ + chars@.take(i as int),
        decreases chars@.len() - i,
    {
        out.push(chars[i]);
        assert(chars@.take(i + 1) =~= chars@.take(i as int).push(chars@[i as int]));
        i = i + 1;
    }
    assert(chars@.take(i as int) =~= chars@);
}

#[verifier::external_type_specification]
#[verifier::external_body]
pub struct ExParseError(ParseError);

/// How `shell_words::split` breaks a line into words, as a shell would:
/// `None` where a quote is left open.
pub uninterp spec fn shell_split(line: Seq<char>) -> Option<Seq<Seq<char>>>;

/// The views of a list of strings.
pub open spec fn word_views(words: Seq<String>) -> Seq<Seq<char>> {
    words.map_values(|w: String| w@)
}

/// `shell_words::split`: the words of the line, or its error where a quote
/// is left open; the words are those that `shell_split` names.
#[verifier::external_body]
fn split_words(line: &str) -> (r: Result<Vec<String>, ParseError>)
    ensures
        match r {
            Ok(words) => shell_split(line@) == Some(word_views(words@)),
            Err(_) => shell_split(line@) is None,
        },
{
    shell_words::split(line)
}

/// Which usage line to print for a command given too few arguments.
#[derive(PartialEq, Eq, Structural, Copy, Clone)]
pub enum Usage {
    /// `<directory_1 directory_2 ...>`
    Directories,
    /// `<file_1 file_2 ...>`
    Files,
    /// `<file> <data>`
    FileAndData,
}

/// What a line typed at the shell asks for, its paths already resolved.
pub enum ShellCommand {
    /// A line with a quote left open.
    SyntaxError(ParseError),
    /// A line without words.
    Nothing,
    Exit,
    Clear,
    /// Print this text.
    Echo(String),
    ListBlockDevices,
    Date,
    /// Make this directory the working one, if it is a directory.
    ChangeDirectory(String),
    /// Make the root the working directory.
    ChangeToRoot,
    /// `cd` given more than one argument.
    TooManyArguments,
    List(Vec<String>),
    MakeDirectories(Vec<String>),
    RemoveDirectories(Vec<String>),
    MakeFiles(Vec<String>),
    RemoveFiles(Vec<String>),
    ReadFiles(Vec<String>),
    /// Write these bytes to the file at this path.
    Write(String, Vec<u8>),
    /// Print the usage line of the command (the first word).
    ShowUsage(Usage),
    RunExample,
    /// The first word names no command.
    NotFound,
}

/// A `ShellCommand` with its strings taken by their characters.
pub enum CommandView {
    SyntaxError,
    Nothing,
    Exit,
    Clear,
    Echo(Seq<char>),
    ListBlockDevices,
    Date,
    ChangeDirectory(Seq<char>),
    ChangeToRoot,
    TooManyArguments,
    List(Seq<Seq<char>>),
    MakeDirectories(Seq<Seq<char>>),
    RemoveDirectories(Seq<Seq<char>>),
    MakeFiles(Seq<Seq<char>>),
    RemoveFiles(Seq<Seq<char>>),
    ReadFiles(Seq<Seq<char>>),
    Write(Seq<char>, Seq<u8>),
    ShowUsage(Usage),
    RunExample,
    NotFound,
}

impl View for ShellCommand {
    type V = CommandView;

    open spec fn view(&self) -> CommandView {
        match self {
            ShellCommand::SyntaxError(_) => CommandView::SyntaxError,
            ShellCommand::Nothing => CommandView::Nothing,
            ShellCommand::Exit => CommandView::Exit,
            ShellCommand::Clear => CommandView::Clear,
            ShellCommand::Echo(s) => CommandView::Echo(s@),
            ShellCommand::ListBlockDevices => CommandView::ListBlockDevices,
            ShellCommand::Date => CommandView::Date,
            ShellCommand::ChangeDirectory(p) => CommandView::ChangeDirectory(p@),
            ShellCommand::ChangeToRoot => CommandView::ChangeToRoot,
            ShellCommand::TooManyArguments => CommandView::TooManyArguments,
            ShellCommand::List(ps) => CommandView::List(word_views(ps@)),
            ShellCommand::MakeDirectories(ps) => CommandView::MakeDirectories(word_views(ps@)),
            ShellCommand::RemoveDirectories(ps) => CommandView::RemoveDirectories(word_views(ps@)),
            ShellCommand::MakeFiles(ps) => CommandView::MakeFiles(word_views(ps@)),
            ShellCommand::RemoveFiles(ps) => CommandView::RemoveFiles(word_views(ps@)),
            ShellCommand::ReadFiles(ps) => CommandView::ReadFiles(word_views(ps@)),
            ShellCommand::Write(p, d) => CommandView::Write(p@, d@),
            ShellCommand::ShowUsage(u) => CommandView::ShowUsage(*u),
            ShellCommand::RunExample => CommandView::RunExample,
            ShellCommand::NotFound => CommandView::NotFound,
        }
    }
}

/// Each argument followed by a space, then a line break.
pub open spec fn echo_text(args: Seq<Seq<char>>) -> Seq<char>
    decreases args.len(),
{
    if args.len() == 0 {
        seq!['\n']
    } else {
        args[0] + seq![' '] + echo_text(args.drop_first())
    }
}

/// The UTF-8 bytes of each argument, each followed by a line break.
pub open spec fn write_data(args: Seq<Seq<char>>) -> Seq<u8>
    decreases args.len(),
{
    if args.len() == 0 {
        Seq::empty()
    } else {
        vstd::utf8::encode_utf8(args[0]) + seq![0x0au8] + write_data(args.drop_first())
    }
}

/// Each argument resolved from the working directory.
pub open spec fn resolve_all(wd: Seq<char>, args: Seq<Seq<char>>) -> Seq<Seq<char>> {
    args.map_values(|a: Seq<char>| normalized_path(wd, a))
}

/// For a command that acts on each of its paths: the paths, resolved, or its
/// usage line when it has none.
pub open spec fn on_paths(wd: Seq<char>, args: Seq<Seq<char>>, usage: Usage, make: spec_fn(Seq<Seq<char>>) -> CommandView) -> CommandView {
    if args.len() == 0 {
        CommandView::ShowUsage(usage)
    } else {
        make(resolve_all(wd, args))
    }
}

/// What the words typed at the shell ask for, from the working directory
/// `wd`.
pub open spec fn command_of(wd: Seq<char>, words: Seq<Seq<char>>) -> CommandView {
    if words.len() == 0 {
        CommandView::Nothing
    } else {
        let name = words[0];
        let args = words.drop_first();
        if name == "exit"@ {
            CommandView::Exit
        } else if name == "clear"@ {
            CommandView::Clear
        } else if name == "echo"@ {
            CommandView::Echo(echo_text(args))
        } else if name == "lsblk"@ {
            CommandView::ListBlockDevices
        } else if name == "date"@ {
            CommandView::Date
        } else if name == "cd"@ {
            if args.len() == 0 {
                CommandView::ChangeToRoot
            } else if args.len() > 1 {
                CommandView::TooManyArguments
            } else {
                CommandView::ChangeDirectory(normalized_path(wd, args[0]))
            }
        } else if name == "ls"@ {
            if args.len() == 0 {
                CommandView::List(seq![normalized_path(wd, Seq::empty())])
            } else {
                CommandView::List(resolve_all(wd, args))
            }
        } else if name == "mkdir"@ {
            on_paths(wd, args, Usage::Directories, |ps: Seq<Seq<char>>| CommandView::MakeDirectories(ps))
        } else if name == "rmdir"@ {
            on_paths(wd, args, Usage::Directories, |ps: Seq<Seq<char>>| CommandView::RemoveDirectories(ps))
        } else if name == "mkfile"@ {
            on_paths(wd, args, Usage::Files, |ps: Seq<Seq<char>>| CommandView::MakeFiles(ps))
        } else if name == "rmfile"@ {
            on_paths(wd, args, Usage::Files, |ps: Seq<Seq<char>>| CommandView::RemoveFiles(ps))
        } else if name == "read"@ {
            on_paths(wd, args, Usage::Files, |ps: Seq<Seq<char>>| CommandView::ReadFiles(ps))
        } else if name == "write"@ {
            if args.len() == 0 {
                CommandView::ShowUsage(Usage::FileAndData)
            } else {
                CommandView::Write(normalized_path(wd, args[0]), write_data(args.drop_first()))
            }
        } else if name == "example1"@ {
            CommandView::RunExample
        } else {
            CommandView::NotFound
        }
    }
}

proof fn lemma_command_names()
    ensures
        "exit"@ == seq!['e', 'x', 'i', 't'],
        "clear"@ == seq!['c', 'l', 'e', 'a', 'r'],
        "echo"@ == seq!['e', 'c', 'h', 'o'],
        "lsblk"@ == seq!['l', 's', 'b', 'l', 'k'],
        "date"@ == seq!['d', 'a', 't', 'e'],
        "cd"@ == seq!['c', 'd'],
        "ls"@ == seq!['l', 's'],
        "mkdir"@ == seq!['m', 'k', 'd', 'i', 'r'],
        "rmdir"@ == seq!['r', 'm', 'd', 'i', 'r'],
        "mkfile"@ == seq!['m', 'k', 'f', 'i', 'l', 'e'],
        "rmfile"@ == seq!['r', 'm', 'f', 'i', 'l', 'e'],
        "read"@ == seq!['r', 'e', 'a', 'd'],
        "write"@ == seq!['w', 'r', 'i', 't', 'e'],
        "example1"@ == seq!['e', 'x', 'a', 'm', 'p', 'l', 'e', '1'],
{
    reveal_strlit("exit");
    reveal_strlit("clear");
    reveal_strlit("echo");
    reveal_strlit("lsblk");
    reveal_strlit("date");
    reveal_strlit("cd");
    reveal_strlit("ls");
    reveal_strlit("mkdir");
    reveal_strlit("rmdir");
    reveal_strlit("mkfile");
    reveal_strlit("rmfile");
    reveal_strlit("read");
    reveal_strlit("write");
    reveal_strlit("example1");
}

/// Every command that acts on paths acts on each of its arguments: `ls`,
/// `mkdir`, `rmdir`, `mkfile`, `rmfile` and `read` given one or more words
/// after their name get one path per word, in order, each the word resolved
/// from the working directory.
pub proof fn path_commands_take_every_argument(wd: Seq<char>, words: Seq<Seq<char>>)
    requires
        words.len() > 1,
    ensures
        words[0] == "ls"@ ==> (command_of(wd, words) matches CommandView::List(ps) && ps.len() == words.len() - 1
            && forall|i: int| 0 <= i < ps.len() ==> #[trigger] ps[i] == normalized_path(wd, words[i + 1])),
        words[0] == "mkdir"@ ==> (command_of(wd, words) matches CommandView::MakeDirectories(ps) && ps.len() == words.len() - 1
            && forall|i: int| 0 <= i < ps.len() ==> #[trigger] ps[i] == normalized_path(wd, words[i + 1])),
        words[0] == "rmdir"@ ==> (command_of(wd, words) matches CommandView::RemoveDirectories(ps) && ps.len() == words.len() - 1
            && forall|i: int| 0 <= i < ps.len() ==> #[trigger] ps[i] == normalized_path(wd, words[i + 1])),
        words[0] == "mkfile"@ ==> (command_of(wd, words) matches CommandView::MakeFiles(ps) && ps.len() == words.len() - 1
            && forall|i: int| 0 <= i < ps.len() ==> #[trigger] ps[i] == normalized_path(wd, words[i + 1])),
        words[0] == "rmfile"@ ==> (command_of(wd, words) matches CommandView::RemoveFiles(ps) && ps.len() == words.len() - 1
            && forall|i: int| 0 <= i < ps.len() ==> #[trigger] ps[i] == normalized_path(wd, words[i + 1])),
        words[0] == "read"@ ==> (command_of(wd, words) matches CommandView::ReadFiles(ps) && ps.len() == words.len() - 1
            && forall|i: int| 0 <= i < ps.len() ==> #[trigger] ps[i] == normalized_path(wd, words[i + 1])),
{
    lemma_command_names();
    let args = words.drop_first();
    let ps = resolve_all(wd, args);
    assert forall|i: int| 0 <= i < ps.len() implies #[trigger] ps[i] == normalized_path(wd, words[i + 1]) by {
        assert(args[i] == words[i + 1]);
    }
    let name = words[0];
    if name.len() > 0 {
        assert(name[0] == name[0]);
    }
}

/// A command that acts on paths, given no path: `ls` lists the working
/// directory, the others print their usage line.
pub proof fn path_commands_without_arguments(wd: Seq<char>, words: Seq<Seq<char>>)
    requires
        words.len() == 1,
    ensures
        words[0] == "ls"@ ==> command_of(wd, words) == CommandView::List(seq![normalized_path(wd, Seq::empty())]),
        words[0] == "mkdir"@ || words[0] == "rmdir"@ ==> command_of(wd, words) == CommandView::ShowUsage(Usage::Directories),
        words[0] == "mkfile"@ || words[0] == "rmfile"@ || words[0] == "read"@ ==> command_of(wd, words) == CommandView::ShowUsage(Usage::Files),
{
    lemma_command_names();
    let name = words[0];
    if name.len() > 0 {
        assert(name[0] == name[0]);
    }
}

/// `cd` with no argument goes to the root, with one goes to that path
/// resolved from the working directory, and with more refuses.
pub proof fn cd_takes_one_path(wd: Seq<char>, words: Seq<Seq<char>>)
    requires
        words.len() >= 1,
        words[0] == "cd"@,
    ensures
        words.len() == 1 ==> command_of(wd, words) == CommandView::ChangeToRoot,
        words.len() == 2 ==> command_of(wd, words) == CommandView::ChangeDirectory(normalized_path(wd, words[1])),
        words.len() > 2 ==> command_of(wd, words) == CommandView::TooManyArguments,
{
    lemma_command_names();
    let name = words[0];
    assert(name[0] == 'c' && name[1] == 'd');
    assert(words.drop_first().len() == words.len() - 1);
    if words.len() == 2 {
        assert(words.drop_first()[0] == words[1]);
    }
}

fn chars_equal(a: &Vec<char>, b: &Vec<char>) -> (eq: bool)
    ensures
        eq == (a@ == b@),
{
    if a.len() != b.len() {
        return false;
    }
    let mut i: usize = 0;
    while i < a.len()
        invariant
            a@.len() == b@.len(),
            i <= a@.len(),
            forall|j: int| 0 <= j < i ==> a@[j] == b@[j],
        decreases a@.len() - i,
    {
        if a[i] != b[i] {
            return false;
        }
        i = i + 1;
    }
    assert(a@ =~= b@);
    true
}

/// Whether the word is the given text.
fn is_word(word: &String, text: &str) -> (eq: bool)
    ensures
        eq == (word@ == text@),
{
    let a = str_chars(word.as_str());
    let b = str_chars(text);
    chars_equal(&a, &b)
}

/// The words from position `from` on, each resolved from `wd`.
fn resolve_each(wd: &str, words: &Vec<String>, from: usize) -> (paths: Vec<String>)
    requires
        from <= words@.len(),
    ensures
        word_views(paths@) == resolve_all(wd@, word_views(words@).skip(from as int)),
{
    let mut paths: Vec<String> = Vec::new();
    let mut i = from;
    while i < words.len()
        invariant
            from <= i <= words@.len(),
            word_views(paths@) == resolve_all(wd@, word_views(words@).subrange(from as int, i as int)),
        decreases words@.len() - i,
    {
        let p = resolve_path(wd, words[i].as_str());
        let ghost before = paths@;
        paths.push(p);
        assert(word_views(paths@) =~= word_views(before).push(p@));
        assert(resolve_all(wd@, word_views(words@).subrange(from as int, i as int).push(words@[i as int]@))
            =~= resolve_all(wd@, word_views(words@).subrange(from as int, i as int)).push(normalized_path(wd@, words@[i as int]@)));
        assert(word_views(words@).subrange(from as int, i + 1) =~= word_views(words@).subrange(from as int, i as int).push(words@[i as int]@));
        assert(word_views(paths@) =~= resolve_all(wd@, word_views(words@).subrange(from as int, i + 1)));
        i = i + 1;
    }
    assert(word_views(words@).subrange(from as int, i as int) =~= word_views(words@).skip(from as int));
    paths
}

/// The text `echo` prints for the words from position `from` on.
fn echo_words(words: &Vec<String>, from: usize) -> (text: String)
    requires
        from <= words@.len(),
    ensures
        text@ == echo_text(word_views(words@).skip(from as int)),
{
    let ghost all = word_views(words@).skip(from as int);
    let mut out: Vec<char> = Vec::new();
    let mut i = from;
    while i < words.len()
        invariant
            from <= i <= words@.len(),
            all == word_views(words@).skip(from as int),
            out@ + echo_text(word_views(words@).skip(i as int)) == echo_text(all),
        decreases words@.len() - i,
    {
        let ghost rest = word_views(words@).skip(i as int);
        assert(rest.drop_first() =~= word_views(words@).skip(i + 1));
        let w = str_chars(words[i].as_str());
        append_chars(&mut out, &w);
        out.push(' ');
        assert(out@ + echo_text(word_views(words@).skip(i + 1)) =~= echo_text(all));
        i = i + 1;
    }
    out.push('\n');
    assert(word_views(words@).skip(i as int) =~= Seq::<Seq<char>>::empty());
    assert(out@ =~= echo_text(all));
    string_from_chars(out)
}

/// The bytes `write` stores for the words from position `from` on.
fn write_words(words: &Vec<String>, from: usize) -> (data: Vec<u8>)
    requires
        from <= words@.len(),
    ensures
        data@ == write_data(word_views(words@).skip(from as int)),
{
    let ghost all = word_views(words@).skip(from as int);
    let mut out: Vec<u8> = Vec::new();
    let mut i = from;
    while i < words.len()
        invariant
            from <= i <= words@.len(),
            all == word_views(words@).skip(from as int),
            out@ + write_data(word_views(words@).skip(i as int)) == write_data(all),
        decreases words@.len() - i,
    {
        let ghost rest = word_views(words@).skip(i as int);
        assert(rest.drop_first() =~= word_views(words@).skip(i + 1));
        let mut bytes = words[i].as_str().as_bytes_vec();
        out.append(&mut bytes);
        out.push(0x0a);
        assert(out@ + write_data(word_views(words@).skip(i + 1)) =~= write_data(all));
        i = i + 1;
    }
    assert(word_views(words@).skip(i as int) =~= Seq::<Seq<char>>::empty());
    assert(out@ =~= write_data(all));
    out
}

/// What the words typed at the shell ask for, from the working directory:
/// the command named by the first word, with the paths among the rest
/// resolved (see `command_of`).
pub fn interpret(working_directory: &str, words: Vec<String>) -> (command: ShellCommand)
    ensures
        command@ == command_of(working_directory@, word_views(words@)),
{
    let ghost all = word_views(words@);
    if words.len() == 0 {
        return ShellCommand::Nothing;
    }
    let ghost args = all.drop_first();
    assert(all.skip(1) =~= args);
    let n = words.len() - 1;
    let name = &words[0];
    assert(name@ == all[0]);
    if is_word(name, "exit") {
        ShellCommand::Exit
    } else if is_word(name, "clear") {
        ShellCommand::Clear
    } else if is_word(name, "echo") {
        ShellCommand::Echo(echo_words(&words, 1))
    } else if is_word(name, "lsblk") {
        ShellCommand::ListBlockDevices
    } else if is_word(name, "date") {
        ShellCommand::Date
    } else if is_word(name, "cd") {
        if n == 0 {
            ShellCommand::ChangeToRoot
        } else if n > 1 {
            ShellCommand::TooManyArguments
        } else {
            ShellCommand::ChangeDirectory(resolve_path(working_directory, words[1].as_str()))
        }
    } else if is_word(name, "ls") {
        if n == 0 {
            let root = resolve_path(working_directory, "");
            let mut paths: Vec<String> = Vec::new();
            paths.push(root);
            proof {
                reveal_strlit("");
                assert(""@ =~= Seq::<char>::empty());
                assert(word_views(paths@) =~= seq![normalized_path(working_directory@, Seq::empty())]);
            }
            ShellCommand::List(paths)
        } else {
            ShellCommand::List(resolve_each(working_directory, &words, 1))
        }
    } else if is_word(name, "mkdir") {
        if n == 0 { ShellCommand::ShowUsage(Usage::Directories) } else { ShellCommand::MakeDirectories(resolve_each(working_directory, &words, 1)) }
    } else if is_word(name, "rmdir") {
        if n == 0 { ShellCommand::ShowUsage(Usage::Directories) } else { ShellCommand::RemoveDirectories(resolve_each(working_directory, &words, 1)) }
    } else if is_word(name, "mkfile") {
        if n == 0 { ShellCommand::ShowUsage(Usage::Files) } else { ShellCommand::MakeFiles(resolve_each(working_directory, &words, 1)) }
    } else if is_word(name, "rmfile") {
        if n == 0 { ShellCommand::ShowUsage(Usage::Files) } else { ShellCommand::RemoveFiles(resolve_each(working_directory, &words, 1)) }
    } else if is_word(name, "read") {
        if n == 0 { ShellCommand::ShowUsage(Usage::Files) } else { ShellCommand::ReadFiles(resolve_each(working_directory, &words, 1)) }
    } else if is_word(name, "write") {
        if n == 0 {
            ShellCommand::ShowUsage(Usage::FileAndData)
        } else {
            let path = resolve_path(working_directory, words[1].as_str());
            let data = write_words(&words, 2);
            assert(all.skip(2) =~= args.drop_first());
            ShellCommand::Write(path, data)
        }
    } else if is_word(name, "example1") {
        ShellCommand::RunExample
    } else {
        ShellCommand::NotFound
    }
}

/// The first word of a line, which names the command; empty for a line
/// without words.
pub open spec fn first_word(words: Seq<Seq<char>>) -> Seq<char> {
    if words.len() > 0 { words[0] } else { Seq::empty() }
}

/// What a line typed at the shell asks for, with the word that names the
/// command (for messages): a syntax error and no name where a quote is left
/// open, else what its words ask for (see `interpret`).
pub fn interpret_line(working_directory: &str, line: &str) -> (r: (String, ShellCommand))
    ensures
        match shell_split(line@) {
            Some(words) => r.1@ == command_of(working_directory@, words) && r.0@ == first_word(words),
            None => r.1@ == CommandView::SyntaxError && r.0@ == Seq::<char>::empty(),
        },
{
    match split_words(line) {
        Ok(words) => {
            let name = if words.len() > 0 { words[0].clone() } else { String::new() };
            (name, interpret(working_directory, words))
        },
        Err(error) => (String::new(), ShellCommand::SyntaxError(error)),
    }
}

/// The mode bits that `ls` shows, owner read first, others execute last.
pub open spec fn permission_flags() -> Seq<u16> {
    seq![0o400u16, 0o200, 0o100, 0o040, 0o020, 0o010, 0o004, 0o002, 0o001]
}

/// The letter for the `i`-th permission bit: `r`, `w` or `x` when the bit is
/// set, `-` when it is clear.
pub open spec fn permission_char(mode: u16, i: int) -> char {
    if mode & permission_flags()[i] != 0 {
        if i % 3 == 0 { 'r' } else if i % 3 == 1 { 'w' } else { 'x' }
    } else {
        '-'
    }
}

/// The nine-letter permission string of a file mode, as `ls -l` shows it.
pub fn permission_string(mode: u16) -> (s: String)
    ensures
        s@ == Seq::new(9, |i: int| permission_char(mode, i)),
{
    let flags: [u16; 9] = [0o400, 0o200, 0o100, 0o040, 0o020, 0o010, 0o004, 0o002, 0o001];
    let letters: [char; 3] = ['r', 'w', 'x'];
    assert(flags@ =~= permission_flags());
    let mut out: Vec<char> = Vec::new();
    let mut i: usize = 0;
    while i < 9
        invariant
            i <= 9,
            flags@ == permission_flags(),
            letters@ == seq!['r', 'w', 'x'],
            out@ == Seq::new(i as nat, |j: int| permission_char(mode, j)),
        decreases 9 - i,
    {
        if mode & flags[i] != 0 {
            out.push(letters[i % 3]);
        } else {
            out.push('-');
        }
        assert(out@ =~= Seq::new((i + 1) as nat, |j: int| permission_char(mode, j)));
        i = i + 1;
    }
    string_from_chars(out)
}

/// Letter `i` of a permission string shows bit `8 - i` of the mode: the
/// letter is `-` exactly when that bit is clear, and otherwise `r`, `w` or
/// `x` as `i` names a read, write or execute bit.
pub proof fn permission_letters_follow_mode_bits(mode: u16, i: int)
    requires
        0 <= i < 9,
    ensures
        (permission_char(mode, i) != '-') == ((mode >> ((8 - i) as u16)) & 1 == 1),
        permission_char(mode, i) != '-' ==> permission_char(mode, i) == (if i % 3 == 0 { 'r' } else if i % 3 == 1 { 'w' } else { 'x' }),
{
    let m = mode;
    if i == 0 {
        assert((m & 0o400u16 != 0) == ((m >> 8u16) & 1 == 1)) by (bit_vector);
    } else if i == 1 {
        assert((m & 0o200u16 != 0) == ((m >> 7u16) & 1 == 1)) by (bit_vector);
    } else if i == 2 {
        assert((m & 0o100u16 != 0) == ((m >> 6u16) & 1 == 1)) by (bit_vector);
    } else if i == 3 {
        assert((m & 0o040u16 != 0) == ((m >> 5u16) & 1 == 1)) by (bit_vector);
    } else if i == 4 {
        assert((m & 0o020u16 != 0) == ((m >> 4u16) & 1 == 1)) by (bit_vector);
    } else if i == 5 {
        assert((m & 0o010u16 != 0) == ((m >> 3u16) & 1 == 1)) by (bit_vector);
    } else if i == 6 {
        assert((m & 0o004u16 != 0) == ((m >> 2u16) & 1 == 1)) by (bit_vector);
    } else if i == 7 {
        assert((m & 0o002u16 != 0) == ((m >> 1u16) & 1 == 1)) by (bit_vector);
    } else {
        assert((m & 0o001u16 != 0) == ((m >> 0u16) & 1 == 1)) by (bit_vector);
    }
}

/// The permission string of `permission_string`, letter by letter: letter
/// `i` shows bit `8 - i` of the mode.
pub proof fn permission_string_shows_mode_bits(mode: u16, s: Seq<char>)
    requires
        s == Seq::new(9, |i: int| permission_char(mode, i)),
    ensures
        s.len() == 9,
        forall|i: int| 0 <= i < 9 ==> ((#[trigger] s[i] != '-') == ((mode >> ((8 - i) as u16)) & 1 == 1)),
{
    assert forall|i: int| 0 <= i < 9 implies ((#[trigger] s[i] != '-') == ((mode >> ((8 - i) as u16)) & 1 == 1)) by {
        permission_letters_follow_mode_bits(mode, i);
    }
}

/// The terminal sequence that colours what follows blue.
pub open spec fn blue() -> Seq<char> {
    seq!['\x1b', '[', '3', '4', 'm']
}

/// The terminal sequence that restores the default colour.
pub open spec fn plain() -> Seq<char> {
    seq!['\x1b', '[', '0', 'm']
}

/// The directory-entry type of a directory.
pub const DIRECTORY_ENTRY_TYPE: u8 = 2;

/// How `ls` shows an entry's name: in blue for a directory.
pub fn entry_label(file_type: u8, name: &str) -> (label: String)
    ensures
        label@ == (if file_type == DIRECTORY_ENTRY_TYPE { blue() + name@ + plain() } else { name@ }),
{
    let chars = str_chars(name);
    if file_type == DIRECTORY_ENTRY_TYPE {
        let mut out: Vec<char> = Vec::new();
        out.push('\x1b');
        out.push('[');
        out.push('3');
        out.push('4');
        out.push('m');
        append_chars(&mut out, &chars);
        out.push('\x1b');
        out.push('[');
        out.push('0');
        out.push('m');
        assert(out@ =~= blue() + name@ + plain());
        string_from_chars(out)
    } else {
        string_from_chars(chars)
    }
}


/// What a look-up of a path in the file system found.
#[derive(Clone, Copy, Debug, PartialEq, Eq, Structural)]
pub enum Lookup {
    /// A directory.
    Directory,
    /// Something other than a directory.
    OtherFile,
    /// Nothing: the path names no file or directory.
    Missing,
    /// The file system failed while looking.
    Failed,
}

/// What `cd` and `ls` do with a path after looking it up.
#[derive(Debug)]
pub enum DirectoryLookup {
    /// Go on: the path names a directory.
    Open,
    /// Refuse with this message.
    Refused(String),
    /// Report the file system's own error.
    FileSystemError,
}

/// The message for a path that names something other than a directory.
pub open spec fn not_a_directory(path: Seq<char>) -> Seq<char> {
    path + ": Not a directory"@
}

/// The message for a path that names nothing.
pub open spec fn not_found(path: Seq<char>) -> Seq<char> {
    path + ": Not a file or directory"@
}

/// Whether `cd` may enter, or `ls` may list, the directory at `path`, given
/// what a look-up of `path` found; otherwise the message to print.
pub fn directory_lookup(path: &str, found: Lookup) -> (r: DirectoryLookup)
    ensures
        found == Lookup::Directory <==> r is Open,
        found == Lookup::Failed <==> r is FileSystemError,
        found == Lookup::OtherFile ==> (r matches DirectoryLookup::Refused(m) && m@ == not_a_directory(path@)),
        found == Lookup::Missing ==> (r matches DirectoryLookup::Refused(m) && m@ == not_found(path@)),
{
    match found {
        Lookup::Directory => DirectoryLookup::Open,
        Lookup::Failed => DirectoryLookup::FileSystemError,
        Lookup::OtherFile => {
            let mut out = str_chars(path);
            let suffix = str_chars(": Not a directory");
            append_chars(&mut out, &suffix);
            DirectoryLookup::Refused(string_from_chars(out))
        },
        Lookup::Missing => {
            let mut out = str_chars(path);
            let suffix = str_chars(": Not a file or directory");
            append_chars(&mut out, &suffix);
            DirectoryLookup::Refused(string_from_chars(out))
        },
    }
}

/// The entries of a linear ext4 directory block, each by its name (empty
/// where the name is not UTF-8) and its directory-entry type, in the order
/// `rsext4`'s directory iterator yields them.
pub uninterp spec fn directory_entries(block: Seq<u8>) -> Seq<(Seq<char>, u8)>;

/// `rsext4::entries::classic_dir::list_entries`: the entries of a directory
/// block, each taken by its name as a string and its type. The result is the
/// one `directory_entries` names.
#[verifier::external_body]
fn list_directory_entries(block: &[u8]) -> (es: Vec<(String, u8)>)
    ensures
        es@.map_values(|e: (String, u8)| (e.0@, e.1)) == directory_entries(block@),
{
    let entries = rsext4::entries::classic_dir::list_entries(block);
    entries.iter().map(|e| (e.name_str().unwrap_or_default().to_string(), e.file_type)).collect()
}

/// How an entry's name is shown: in blue for a directory.
pub open spec fn entry_text(file_type: u8, name: Seq<char>) -> Seq<char> {
    if file_type == DIRECTORY_ENTRY_TYPE { blue() + name + plain() } else { name }
}

/// The line `ls` prints for a directory entry: the directory's permission
/// string, owner, group and change time, then the entry's name.
pub open spec fn listing_line(entry: (Seq<char>, u8), mode: u16, uid: u32, gid: u32, time: Option<DateParts>) -> Seq<char> {
    Seq::new(9, |i: int| permission_char(mode, i)) + " "@ + decimal(uid as nat) + " "@ + decimal(gid as nat) + " "@
        + listing_time_text(time) + " "@ + entry_text(entry.1, entry.0)
}

/// The lines `ls` prints for a directory whose block is `block` and whose
/// mode, owner, group and change time are given: one per entry, in order.
pub fn directory_listing(block: &[u8], mode: u16, uid: u32, gid: u32, time: Option<DateParts>) -> (lines: Vec<String>)
    ensures
        lines@.len() == directory_entries(block@).len(),
        forall|i: int| 0 <= i < lines@.len() ==> #[trigger] lines@[i]@ == listing_line(directory_entries(block@)[i], mode, uid, gid, time),
{
    let entries = list_directory_entries(block);
    let ghost named = directory_entries(block@);
    assert(entries@.len() == named.len()) by {
        assert(entries@.map_values(|e: (String, u8)| (e.0@, e.1)).len() == entries@.len());
    }
    let permissions = permission_string(mode);
    let mut prefix: Vec<char> = str_chars(permissions.as_str());
    push_str(&mut prefix, " ");
    push_decimal(&mut prefix, uid as u64);
    push_str(&mut prefix, " ");
    push_decimal(&mut prefix, gid as u64);
    push_str(&mut prefix, " ");
    push_listing_time(&mut prefix, &time);
    push_str(&mut prefix, " ");
    let mut lines: Vec<String> = Vec::new();
    let mut i: usize = 0;
    while i < entries.len()
        invariant
            i <= entries@.len(),
            entries@.len() == named.len(),
            named == directory_entries(block@),
            entries@.map_values(|e: (String, u8)| (e.0@, e.1)) == named,
            prefix@ == Seq::new(9, |j: int| permission_char(mode, j)) + " "@ + decimal(uid as nat) + " "@ + decimal(gid as nat) + " "@
                + listing_time_text(time) + " "@,
            lines@.len() == i,
            forall|k: int| 0 <= k < i ==> #[trigger] lines@[k]@ == listing_line(named[k], mode, uid, gid, time),
        decreases entries@.len() - i,
    {
        let entry = &entries[i];
        assert(named[i as int] == (entry.0@, entry.1));
        let label = entry_label(entry.1, entry.0.as_str());
        let mut line = prefix.clone();
        push_str(&mut line, label.as_str());
        assert(line@ =~= listing_line(named[i as int], mode, uid, gid, time));
        lines.push(string_from_chars(line));
        i = i + 1;
    }
    lines
}

} // verus!
