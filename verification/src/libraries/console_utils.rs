use vstd::prelude::*;
use crate::text::string_from_chars;
use vstd::string::{StrSliceExecFns, StringSliceAdditionalSpecFns};

verus! {

/// The byte the Delete key sends.
pub const DELETE: u8 = 0x7f;

/// The byte the Enter key sends.
pub const CARRIAGE_RETURN: u8 = 0x0d;

/// The byte that starts an escape sequence.
pub const ESCAPE: u8 = 0x1b;

/// Whether the byte is a printable ASCII character (space to tilde).
pub open spec fn is_graphic(b: u8) -> bool {
    0x20 <= b <= 0x7e
}

/// The terminal sequence that moves the cursor one column left.
pub open spec fn cursor_left() -> Seq<u8> {
    seq![ESCAPE, 0x5b, 0x44]
}

/// The terminal sequence that moves the cursor one column right.
pub open spec fn cursor_right() -> Seq<u8> {
    seq![ESCAPE, 0x5b, 0x43]
}

/// `n` moves of the cursor to the left.
pub open spec fn cursor_left_times(n: nat) -> Seq<u8>
    decreases n,
{
    if n == 0 {
        Seq::empty()
    } else {
        cursor_left_times((n - 1) as nat) + cursor_left()
    }
}

/// The bytes of the characters, each below 128.
pub open spec fn ascii_bytes(cs: Seq<char>) -> Seq<u8> {
    cs.map(|i: int, c: char| c as u8)
}

/// Where the editor stands in reading an escape sequence.
#[derive(PartialEq, Eq, Structural, Copy, Clone)]
pub enum EscapeState {
    /// Not in an escape sequence.
    Normal,
    /// After an escape byte.
    Escape,
    /// After an escape byte and `[`.
    ControlSequence,
}

/// What the editor asks for after taking one byte.
pub enum EditorAction {
    /// Send these bytes to the terminal and read on.
    Echo(Vec<u8>),
    /// The line is complete.
    Done(String),
}

/// The line being typed: its characters, the cursor position and the state
/// of escape-sequence decoding.
pub struct LineEditor {
    input: Vec<char>,
    cursor: usize,
    escape: EscapeState,
}

/// Result of one byte on the abstract editor: the new characters, cursor and
/// escape state, what is sent to the terminal, and whether the line is done.
pub struct EditStep {
    pub input: Seq<char>,
    pub cursor: nat,
    pub escape: EscapeState,
    pub echo: Seq<u8>,
    pub done: bool,
}

/// The editor's behaviour on one byte. Enter ends the line. A printable
/// character is inserted at the cursor and the rest of the line redrawn. The
/// Delete key removes the character left of the cursor and redraws. Escape,
/// `[`, then `C` or `D` move the cursor right or left within the line; any
/// other byte in an escape sequence abandons it, and other bytes are ignored.
pub open spec fn edit(input: Seq<char>, cursor: nat, escape: EscapeState, b: u8) -> EditStep {
    let same = EditStep { input: input, cursor: cursor, escape: EscapeState::Normal, echo: Seq::empty(), done: false };
    match escape {
        EscapeState::Escape => if b == 0x5b {
            EditStep { escape: EscapeState::ControlSequence, ..same }
        } else {
            same
        },
        EscapeState::ControlSequence => if b == 0x43 && cursor < input.len() {
            EditStep { cursor: cursor + 1, echo: cursor_right(), ..same }
        } else if b == 0x44 && cursor > 0 {
            EditStep { cursor: (cursor - 1) as nat, echo: cursor_left(), ..same }
        } else {
            same
        },
        EscapeState::Normal => if b == ESCAPE {
            EditStep { escape: EscapeState::Escape, ..same }
        } else if b == DELETE {
            if cursor > 0 {
                let p = (cursor - 1) as nat;
                let rest = input.subrange(cursor as int, input.len() as int);
                EditStep {
                    input: input.remove(p as int),
                    cursor: p,
                    echo: cursor_left() + ascii_bytes(rest) + seq![0x20u8] + cursor_left_times(rest.len() + 1),
                    ..same
                }
            } else {
                same
            }
        } else if b == CARRIAGE_RETURN {
            EditStep { done: true, ..same }
        } else if is_graphic(b) {
            let rest = input.subrange(cursor as int, input.len() as int);
            EditStep {
                input: input.insert(cursor as int, b as char),
                cursor: cursor + 1,
                echo: seq![b] + ascii_bytes(rest) + cursor_left_times(rest.len()),
                ..same
            }
        } else {
            same
        },
    }
}

impl LineEditor {
    /// The characters typed so far.
    pub closed spec fn input(&self) -> Seq<char> {
        self.input@
    }

    /// The cursor position, counted in characters from the start.
    pub closed spec fn cursor(&self) -> nat {
        self.cursor as nat
    }

    /// The state of escape-sequence decoding.
    pub closed spec fn escape(&self) -> EscapeState {
        self.escape
    }

    /// The cursor lies within the line, and the line holds printable ASCII
    /// characters only.
    pub open spec fn wf(&self) -> bool {
        &&& self.cursor() <= self.input().len()
        &&& forall|i: int| 0 <= i < self.input().len() ==> is_graphic(#[trigger] self.input()[i] as u8)
            && (self.input()[i] as u8) as char == self.input()[i]
    }

    /// An empty line with the cursor at its start.
    pub fn new() -> (e: LineEditor)
        ensures
            e.wf(),
            e.input() == Seq::<char>::empty(),
            e.cursor() == 0,
            e.escape() == EscapeState::Normal,
    {
        LineEditor { input: Vec::new(), cursor: 0, escape: EscapeState::Normal }
    }

    /// Takes one byte typed at the terminal and applies `edit` to the line.
    /// When the byte ends the line, the line is handed back and the editor
    /// starts a new, empty one; otherwise the bytes to echo are handed back.
    pub fn feed(&mut self, byte: u8) -> (action: EditorAction)
        requires
            old(self).wf(),
            old(self).input().len() + 1 < usize::MAX,
        ensures
            final(self).wf(),
            ({
                let s = edit(old(self).input(), old(self).cursor(), old(self).escape(), byte);
                match action {
                    EditorAction::Echo(bytes) => {
                        &&& !s.done
                        &&& bytes@ == s.echo
                        &&& final(self).input() == s.input
                        &&& final(self).cursor() == s.cursor
                        &&& final(self).escape() == s.escape
                    },
                    EditorAction::Done(line) => {
                        &&& s.done
                        &&& line@ == s.input
                        &&& final(self).input() == Seq::<char>::empty()
                        &&& final(self).cursor() == 0
                        &&& final(self).escape() == EscapeState::Normal
                    },
                }
            }),
    {
        let mut echo: Vec<u8> = Vec::new();
        match self.escape {
            EscapeState::Escape => {
                if byte == 0x5b {
                    self.escape = EscapeState::ControlSequence;
                } else {
                    self.escape = EscapeState::Normal;
                }
            },
            EscapeState::ControlSequence => {
                self.escape = EscapeState::Normal;
                if byte == 0x43 && self.cursor < self.input.len() {
                    self.cursor = self.cursor + 1;
                    echo.push(ESCAPE);
                    echo.push(0x5b);
                    echo.push(0x43);
                    assert(echo@ =~= cursor_right());
                } else if byte == 0x44 && self.cursor > 0 {
                    self.cursor = self.cursor - 1;
                    echo.push(ESCAPE);
                    echo.push(0x5b);
                    echo.push(0x44);
                    assert(echo@ =~= cursor_left());
                }
            },
            EscapeState::Normal => {
                if byte == ESCAPE {
                    self.escape = EscapeState::Escape;
                } else if byte == DELETE {
                    if self.cursor > 0 {
                        self.cursor = self.cursor - 1;
                        let ghost rest = old(self).input@.subrange(old(self).cursor as int, old(self).input@.len() as int);
                        self.input.remove(self.cursor);
                        assert(self.input@.subrange(self.cursor as int, self.input@.len() as int) =~= rest);
                        echo.push(ESCAPE);
                        echo.push(0x5b);
                        echo.push(0x44);
                        let n = push_chars_from(&mut echo, &self.input, self.cursor);
                        echo.push(0x20);
                        push_cursor_left_times(&mut echo, n + 1);
                        assert(echo@ =~= cursor_left() + ascii_bytes(rest) + seq![0x20u8] + cursor_left_times(rest.len() + 1));
                        proof {
                            assert forall|i: int| 0 <= i < self.input@.len() implies is_graphic(#[trigger] self.input@[i] as u8)
                                && (self.input@[i] as u8) as char == self.input@[i] by {
                                if i < self.cursor {
                                    assert(self.input@[i] == old(self).input@[i]);
                                } else {
                                    assert(self.input@[i] == old(self).input@[i + 1]);
                                }
                            }
                        }
                    }
                } else if byte == CARRIAGE_RETURN {
                    let mut line: Vec<char> = Vec::new();
                    std::mem::swap(&mut line, &mut self.input);
                    self.cursor = 0;
                    let text = string_from_chars(line);
                    return EditorAction::Done(text);
                } else if 0x20 <= byte && byte <= 0x7e {
                    let ghost rest = old(self).input@.subrange(old(self).cursor as int, old(self).input@.len() as int);
                    self.input.insert(self.cursor, byte as char);
                    self.cursor = self.cursor + 1;
                    assert(self.input@.subrange(self.cursor as int, self.input@.len() as int) =~= rest);
                    echo.push(byte);
                    let n = push_chars_from(&mut echo, &self.input, self.cursor);
                    push_cursor_left_times(&mut echo, n);
                    assert(echo@ =~= seq![byte] + ascii_bytes(rest) + cursor_left_times(rest.len()));
                    proof {
                        assert forall|i: int| 0 <= i < self.input@.len() implies is_graphic(#[trigger] self.input@[i] as u8)
                            && (self.input@[i] as u8) as char == self.input@[i] by {
                            if i < old(self).cursor {
                                assert(self.input@[i] == old(self).input@[i]);
                            } else if i > old(self).cursor {
                                assert(self.input@[i] == old(self).input@[i - 1]);
                            } else {
                                assert(self.input@[i] == byte as char);
                                assert((byte as char) as u8 == byte);
                            }
                        }
                    }
                }
            },
        }
        EditorAction::Echo(echo)
    }
}

/// Appends the bytes of `chars[from..]` to `out`; returns how many.
fn push_chars_from(out: &mut Vec<u8>, chars: &Vec<char>, from: usize) -> (n: usize)
    requires
        from <= chars@.len(),
    ensures
        n == chars@.len() - from,
        final(out)@ == old(out)@ + ascii_bytes(chars@.subrange(from as int, chars@.len() as int)),
{
    let mut i = from;
    while i < chars.len()
        invariant
            from <= i <= chars@.len(),
            out@ == old(out)@ + ascii_bytes(chars@.subrange(from as int, i as int)),
        decreases chars@.len() - i,
    {
        let c = chars[i];
        out.push(c as u8);
        assert(chars@.subrange(from as int, i + 1) =~= chars@.subrange(from as int, i as int).push(c));
        assert(ascii_bytes(chars@.subrange(from as int, i + 1)) =~= ascii_bytes(chars@.subrange(from as int, i as int)).push(c as u8));
        i = i + 1;
    }
    chars.len() - from
}

/// Appends `n` moves of the cursor to the left to `out`.
fn push_cursor_left_times(out: &mut Vec<u8>, n: usize)
    ensures
        final(out)@ == old(out)@ + cursor_left_times(n as nat),
{
    let mut k: usize = 0;
    while k < n
        invariant
            k <= n,
            out@ == old(out)@ + cursor_left_times(k as nat),
        decreases n - k,
    {
        out.push(ESCAPE);
        out.push(0x5b);
        out.push(0x44);
        assert(cursor_left_times((k + 1) as nat) == cursor_left_times(k as nat) + cursor_left());
        assert(out@ =~= old(out)@ + cursor_left_times((k + 1) as nat));
        k = k + 1;
    }
}

/// The line, cursor and escape state after typing the bytes one by one.
pub open spec fn type_bytes(input: Seq<char>, cursor: nat, escape: EscapeState, bytes: Seq<u8>) -> (Seq<char>, nat, EscapeState)
    decreases bytes.len(),
{
    if bytes.len() == 0 {
        (input, cursor, escape)
    } else {
        let (i, c, e) = type_bytes(input, cursor, escape, bytes.drop_last());
        let s = edit(i, c, e, bytes.last());
        (s.input, s.cursor, s.escape)
    }
}

/// Typing printable characters at the end of the line appends them to it,
/// with the cursor following: what is typed is what Enter hands back.
pub proof fn typing_appends(input: Seq<char>, bytes: Seq<u8>)
    requires
        forall|i: int| 0 <= i < bytes.len() ==> is_graphic(#[trigger] bytes[i]),
    ensures
        type_bytes(input, input.len(), EscapeState::Normal, bytes)
            == (input + bytes.map(|i: int, b: u8| b as char), input.len() + bytes.len(), EscapeState::Normal),
        edit(input + bytes.map(|i: int, b: u8| b as char), input.len() + bytes.len(), EscapeState::Normal, CARRIAGE_RETURN).input
            == input + bytes.map(|i: int, b: u8| b as char),
        edit(input + bytes.map(|i: int, b: u8| b as char), input.len() + bytes.len(), EscapeState::Normal, CARRIAGE_RETURN).done,
    decreases bytes.len(),
{
    if bytes.len() > 0 {
        let front = bytes.drop_last();
        typing_appends(input, front);
        let typed = input + front.map(|i: int, b: u8| b as char);
        let s = edit(typed, typed.len(), EscapeState::Normal, bytes.last());
        assert(is_graphic(bytes[bytes.len() - 1]));
        assert(s.input =~= input + bytes.map(|i: int, b: u8| b as char));
    }
}

/// Deleting right after typing a printable character restores the line and
/// the cursor.
pub proof fn delete_undoes_typing(input: Seq<char>, cursor: nat, b: u8)
    requires
        cursor <= input.len(),
        is_graphic(b),
    ensures
        ({
            let typed = edit(input, cursor, EscapeState::Normal, b);
            let deleted = edit(typed.input, typed.cursor, typed.escape, DELETE);
            deleted.input == input && deleted.cursor == cursor && deleted.escape == EscapeState::Normal
        }),
{
    let typed = edit(input, cursor, EscapeState::Normal, b);
    assert(typed.input.remove(cursor as int) =~= input);
}

/// Moving the cursor left and then right brings it back where it was.
pub proof fn left_then_right_returns(input: Seq<char>, cursor: nat)
    requires
        0 < cursor <= input.len(),
    ensures
        ({
            let moves = cursor_left() + cursor_right();
            type_bytes(input, cursor, EscapeState::Normal, moves) == (input, cursor, EscapeState::Normal)
        }),
{
    let moves = cursor_left() + cursor_right();
    reveal_with_fuel(type_bytes, 7);
    assert(moves.drop_last() =~= seq![ESCAPE, 0x5b, 0x44, ESCAPE, 0x5b]);
    assert(moves.drop_last().drop_last() =~= seq![ESCAPE, 0x5b, 0x44, ESCAPE]);
    assert(moves.drop_last().drop_last().drop_last() =~= seq![ESCAPE, 0x5b, 0x44]);
    assert(seq![ESCAPE, 0x5b, 0x44].drop_last() =~= seq![ESCAPE, 0x5bu8]);
    assert(seq![ESCAPE, 0x5bu8].drop_last() =~= seq![ESCAPE]);
    assert(seq![ESCAPE].drop_last() =~= Seq::<u8>::empty());
}

/// A line of `n` blanks.
pub open spec fn blanks(n: nat) -> Seq<char> {
    Seq::new(n, |i: int| ' ')
}

/// The screen line with `c` written at column `col`: over the character
/// there, or after the last one.
pub open spec fn write_at(screen: Seq<char>, col: int, c: char) -> Seq<char> {
    if 0 <= col < screen.len() { screen.update(col, c) } else { screen.push(c) }
}

/// What a terminal shows after receiving `bytes`, from the screen line
/// `screen` with its cursor at column `col`: a printable byte is written at
/// the cursor, which moves one column right; `ESC [ D` and `ESC [ C` move
/// the cursor one column left or right; other bytes change nothing.
pub open spec fn terminal(screen: Seq<char>, col: int, bytes: Seq<u8>) -> (Seq<char>, int)
    decreases bytes.len(),
{
    if bytes.len() == 0 {
        (screen, col)
    } else if bytes.len() >= 3 && bytes[0] == ESCAPE && bytes[1] == 0x5b && bytes[2] == 0x44 {
        terminal(screen, col - 1, bytes.skip(3))
    } else if bytes.len() >= 3 && bytes[0] == ESCAPE && bytes[1] == 0x5b && bytes[2] == 0x43 {
        terminal(screen, col + 1, bytes.skip(3))
    } else if is_graphic(bytes[0]) {
        terminal(write_at(screen, col, bytes[0] as char), col + 1, bytes.skip(1))
    } else {
        terminal(screen, col, bytes.skip(1))
    }
}

/// The characters are printable ASCII, each the character of its byte.
pub open spec fn all_graphic(cs: Seq<char>) -> bool {
    forall|i: int| 0 <= i < cs.len() ==> is_graphic(#[trigger] cs[i] as u8) && (cs[i] as u8) as char == cs[i]
}

proof fn lemma_terminal_left(screen: Seq<char>, col: int, rest: Seq<u8>)
    ensures
        terminal(screen, col, cursor_left() + rest) == terminal(screen, col - 1, rest),
{
    let bytes = cursor_left() + rest;
    assert(bytes[0] == ESCAPE && bytes[1] == 0x5b && bytes[2] == 0x44);
    assert(bytes.skip(3) =~= rest);
}

proof fn lemma_terminal_right(screen: Seq<char>, col: int, rest: Seq<u8>)
    ensures
        terminal(screen, col, cursor_right() + rest) == terminal(screen, col + 1, rest),
{
    let bytes = cursor_right() + rest;
    assert(bytes[0] == ESCAPE && bytes[1] == 0x5b && bytes[2] == 0x43);
    assert(bytes.skip(3) =~= rest);
}

proof fn lemma_left_times_front(n: nat)
    requires
        n > 0,
    ensures
        cursor_left_times(n) == cursor_left() + cursor_left_times((n - 1) as nat),
    decreases n,
{
    if n > 1 {
        lemma_left_times_front((n - 1) as nat);
        assert(cursor_left_times(n) =~= cursor_left() + cursor_left_times((n - 1) as nat));
    } else {
        assert(cursor_left_times(1) =~= cursor_left() + cursor_left_times(0));
    }
}

proof fn lemma_terminal_left_times(screen: Seq<char>, col: int, n: nat, rest: Seq<u8>)
    ensures
        terminal(screen, col, cursor_left_times(n) + rest) == terminal(screen, col - n, rest),
    decreases n,
{
    if n == 0 {
        assert(cursor_left_times(0) + rest =~= rest);
    } else {
        lemma_left_times_front(n);
        assert(cursor_left_times(n) + rest =~= cursor_left() + (cursor_left_times((n - 1) as nat) + rest));
        lemma_terminal_left(screen, col, cursor_left_times((n - 1) as nat) + rest);
        lemma_terminal_left_times(screen, col - 1, (n - 1) as nat, rest);
    }
}

/// The screen line with `cs` written from column `col` on.
pub open spec fn overwrite(screen: Seq<char>, col: int, cs: Seq<char>) -> Seq<char> {
    if col + cs.len() >= screen.len() {
        screen.take(col) + cs
    } else {
        screen.take(col) + cs + screen.skip(col + cs.len())
    }
}

proof fn lemma_terminal_prints(screen: Seq<char>, col: int, cs: Seq<char>, rest: Seq<u8>)
    requires
        0 <= col <= screen.len(),
        all_graphic(cs),
    ensures
        terminal(screen, col, ascii_bytes(cs) + rest) == terminal(overwrite(screen, col, cs), col + cs.len(), rest),
    decreases cs.len(),
{
    if cs.len() == 0 {
        assert(ascii_bytes(cs) + rest =~= rest);
        assert(overwrite(screen, col, cs) =~= screen);
    } else {
        let bytes = ascii_bytes(cs) + rest;
        let c = cs[0];
        assert(is_graphic(cs[0] as u8) && (cs[0] as u8) as char == cs[0]);
        assert(bytes[0] == c as u8);
        if bytes.len() >= 3 {
            assert(bytes[0] != ESCAPE);
        }
        let tail = cs.drop_first();
        assert(all_graphic(tail)) by {
            assert forall|i: int| 0 <= i < tail.len() implies is_graphic(#[trigger] tail[i] as u8) && (tail[i] as u8) as char == tail[i] by {
                assert(tail[i] == cs[i + 1]);
            }
        }
        assert(bytes.skip(1) =~= ascii_bytes(tail) + rest);
        let written = write_at(screen, col, c);
        assert(terminal(screen, col, bytes) == terminal(written, col + 1, bytes.skip(1)));
        lemma_terminal_prints(written, col + 1, tail, rest);
        assert(overwrite(written, col + 1, tail) =~= overwrite(screen, col, cs));
    }
}

/// The terminal follows the editor. Whatever byte the editor takes, from a
/// screen that shows its line, then blanks, with the cursor at the editor's
/// cursor, the echo leaves the screen showing the new line, then blanks,
/// with the cursor at the new cursor.
pub proof fn echo_keeps_terminal_in_step(input: Seq<char>, cursor: nat, escape: EscapeState, b: u8, k: nat)
    requires
        cursor <= input.len(),
        all_graphic(input),
    ensures
        ({
            let s = edit(input, cursor, escape, b);
            exists|k2: nat| terminal(input + blanks(k), cursor as int, s.echo) == (s.input + blanks(k2), s.cursor as int)
        }),
{
    let s = edit(input, cursor, escape, b);
    let screen = input + blanks(k);
    let c = cursor as int;
    let rest = input.subrange(c, input.len() as int);
    assert(all_graphic(rest)) by {
        assert forall|i: int| 0 <= i < rest.len() implies is_graphic(#[trigger] rest[i] as u8) && (rest[i] as u8) as char == rest[i] by {
            assert(rest[i] == input[c + i]);
        }
    }
    if s.echo.len() == 0 {
        assert(terminal(screen, c, s.echo) == (screen, c));
        if s.cursor == cursor && s.input == input {
            assert(terminal(screen, c, s.echo) == (s.input + blanks(k), s.cursor as int));
        }
    } else if escape == EscapeState::ControlSequence && b == 0x43 {
        lemma_terminal_right(screen, c, Seq::empty());
        assert(cursor_right() + Seq::<u8>::empty() =~= cursor_right());
        assert(terminal(screen, c + 1, Seq::<u8>::empty()) == (screen, c + 1));
        assert(terminal(screen, c, s.echo) == (s.input + blanks(k), s.cursor as int));
    } else if escape == EscapeState::ControlSequence && b == 0x44 {
        lemma_terminal_left(screen, c, Seq::empty());
        assert(cursor_left() + Seq::<u8>::empty() =~= cursor_left());
        assert(terminal(screen, c, s.echo) == (s.input + blanks(k), s.cursor as int));
    } else if escape == EscapeState::Normal && b == DELETE {
        // Move left, redraw the rest and blank the last column, move back.
        let moved = cursor_left_times(rest.len() + 1);
        let e2 = ascii_bytes(rest + seq![' ']) + moved;
        assert(ascii_bytes(rest) + seq![0x20u8] =~= ascii_bytes(rest + seq![' ']));
        assert(s.echo =~= cursor_left() + e2);
        lemma_terminal_left(screen, c, e2);
        let g = rest + seq![' '];
        assert(all_graphic(g)) by {
            assert forall|i: int| 0 <= i < g.len() implies is_graphic(#[trigger] g[i] as u8) && (g[i] as u8) as char == g[i] by {
                if i < rest.len() {
                    assert(g[i] == rest[i]);
                } else {
                    assert(g[i] == ' ');
                }
            }
        }
        lemma_terminal_prints(screen, c - 1, g, moved);
        lemma_terminal_left_times(overwrite(screen, c - 1, g), c - 1 + g.len(), rest.len() + 1, Seq::empty());
        assert(moved + Seq::<u8>::empty() =~= moved);
        assert(overwrite(screen, c - 1, g) =~= s.input + blanks(k + 1));
        assert(terminal(screen, c, s.echo) == (s.input + blanks(k + 1), s.cursor as int));
    } else {
        // A printable character: write it and the rest, move back.
        assert(escape == EscapeState::Normal && is_graphic(b));
        let g = seq![b as char] + rest;
        assert((b as char) as u8 == b);
        assert(all_graphic(g)) by {
            assert forall|i: int| 0 <= i < g.len() implies is_graphic(#[trigger] g[i] as u8) && (g[i] as u8) as char == g[i] by {
                if i > 0 {
                    assert(g[i] == rest[i - 1]);
                }
            }
        }
        let moved = cursor_left_times(rest.len());
        assert(seq![b] + ascii_bytes(rest) =~= ascii_bytes(g));
        assert(s.echo =~= ascii_bytes(g) + moved);
        lemma_terminal_prints(screen, c, g, moved);
        lemma_terminal_left_times(overwrite(screen, c, g), c + g.len(), rest.len(), Seq::empty());
        assert(moved + Seq::<u8>::empty() =~= moved);
        let k2: nat = if k > 0 { (k - 1) as nat } else { 0 };
        assert(overwrite(screen, c, g) =~= s.input + blanks(k2));
        assert(terminal(screen, c, s.echo) == (s.input + blanks(k2), s.cursor as int));
    }
}

/// One poll of the console: the byte it delivered, or `None` when it
/// delivered none or failed and must be polled again.
pub fn get_ascii_char(received: Result<Option<u8>, ()>) -> (byte: Option<u8>)
    ensures
        byte == match received {
            Ok(Some(b)) => Some(b),
            _ => None::<u8>,
        },
{
    match received {
        Ok(Some(b)) => Some(b),
        _ => None,
    }
}

/// The bytes to send to the console for formatted text: its UTF-8 bytes
/// when a console is attached, nothing otherwise.
pub fn print_args(text: &str, console_attached: bool) -> (bytes: Vec<u8>)
    ensures
        bytes@ == (if console_attached { text.spec_bytes() } else { Seq::<u8>::empty() }),
{
    if console_attached {
        text.as_bytes_vec()
    } else {
        Vec::new()
    }
}

} // verus!
