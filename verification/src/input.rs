//! Keyboard and mouse decisions of the code editor canvas: which editor
//! message a key press or a click produces, and how the canvas's own
//! interaction state (focus, drag, click streak, hover cell) evolves.
use vstd::prelude::*;
use crate::text::{chars_of, lines_of, text_lines};
use crate::status::CursorPos;

verus! {

/// The modifier keys held during an event. `command` is the platform's
/// primary shortcut modifier (Cmd on macOS, Ctrl elsewhere).
#[derive(Clone, Copy, Debug, PartialEq, Eq, Default)]
pub struct Modifiers {
    pub shift: bool,
    pub control: bool,
    pub alt: bool,
    pub command: bool,
}

/// The named (non-character) keys the editor reacts to; every other named
/// key is `Other`.
#[derive(Clone, Copy, Debug, PartialEq, Eq)]
pub enum NamedKey {
    Enter,
    Space,
    Backspace,
    Delete,
    Tab,
    ArrowLeft,
    ArrowRight,
    ArrowUp,
    ArrowDown,
    Home,
    End,
    Escape,
    F12,
    Other,
}

/// A key as the keyboard layout reports it.
#[derive(Clone, Debug, PartialEq, Eq)]
pub enum EditorKey {
    Named(NamedKey),
    Character(String),
    Unidentified,
}

/// Caret movement directions.
#[derive(Clone, Copy, Debug, PartialEq, Eq)]
pub enum Direction {
    Left,
    Right,
    Up,
    Down,
    LineStart,
    LineEnd,
}

/// What the editor canvas asks the application to do.
#[derive(Clone, Debug, PartialEq, Eq)]
pub enum EditorMessage {
    EditorInsertText(String),
    EditorTypeChar(char),
    EditorBackspace,
    EditorDelete,
    EditorIndent,
    EditorDedent,
    EditorMove { dir: Direction, extend: bool },
    DismissGhostCompletion,
    FindReferences { line: usize, col: usize },
    GoToDefinition { line: usize, col: usize },
    EditorSelectAll,
    EditorCopy,
    EditorCut,
    EditorPaste,
    EditorUndo,
    EditorRedo,
    EditorToggleComment,
    EditorClick { line: usize, col: usize, extend: bool },
    EditorSelectWord { line: usize, col: usize },
    EditorSelectLine { line: usize },
    RevertLine { line: usize },
    PromptRevertLine { line: usize },
    CancelRevertLine,
    EditorHoverMove { line: usize, col: usize },
    EditorHoverLeave,
}

/// `c` is a control character (Unicode general category Cc).
pub open spec fn is_control(c: char) -> bool {
    (c as u32) <= 0x1f || (0x7f <= (c as u32) && (c as u32) <= 0x9f)
}

/// `s` is a single char equal to the ASCII letter `lower` in either case.
pub open spec fn is_letter_ignore_case(s: Seq<char>, lower: char) -> bool {
    s.len() == 1 && (s[0] == lower || (s[0] as u32) + 32 == (lower as u32))
}

/// No modifier other than Shift is held.
pub open spec fn is_plain(m: Modifiers) -> bool {
    !(m.command || m.control || m.alt)
}

/// `r` is `Some` of an `EditorInsertText` carrying exactly `t`.
pub open spec fn inserts(r: Option<EditorMessage>, t: Seq<char>) -> bool {
    r matches Some(EditorMessage::EditorInsertText(x)) && x@ == t
}

/// `r` is what a plain (unmodified but for Shift) named key produces.
pub open spec fn named_key_yields(
    named: NamedKey,
    extend: bool,
    ghost_shown: bool,
    line: usize,
    col: usize,
    r: Option<EditorMessage>,
) -> bool {
    match named {
        NamedKey::Enter => inserts(r, seq!['\n']),
        NamedKey::Space => inserts(r, seq![' ']),
        NamedKey::Backspace => r == Some(EditorMessage::EditorBackspace),
        NamedKey::Delete => r == Some(EditorMessage::EditorDelete),
        NamedKey::Tab => r == Some(
            if extend {
                EditorMessage::EditorDedent
            } else {
                EditorMessage::EditorIndent
            },
        ),
        NamedKey::ArrowLeft => r == Some(EditorMessage::EditorMove { dir: Direction::Left, extend }),
        NamedKey::ArrowRight => r == Some(EditorMessage::EditorMove { dir: Direction::Right, extend }),
        NamedKey::ArrowUp => r == Some(EditorMessage::EditorMove { dir: Direction::Up, extend }),
        NamedKey::ArrowDown => r == Some(EditorMessage::EditorMove { dir: Direction::Down, extend }),
        NamedKey::Home => r == Some(EditorMessage::EditorMove { dir: Direction::LineStart, extend }),
        NamedKey::End => r == Some(EditorMessage::EditorMove { dir: Direction::LineEnd, extend }),
        NamedKey::Escape => r == (if ghost_shown {
            Some(EditorMessage::DismissGhostCompletion)
        } else {
            None
        }),
        NamedKey::F12 => r == Some(
            if extend {
                EditorMessage::FindReferences { line, col }
            } else {
                EditorMessage::GoToDefinition { line, col }
            },
        ),
        NamedKey::Other => r is None,
    }
}

/// The message a Command-chord on the character `c` produces.
pub open spec fn command_char_message(c: Seq<char>, shift: bool) -> Option<EditorMessage> {
    if is_letter_ignore_case(c, 'a') {
        Some(EditorMessage::EditorSelectAll)
    } else if is_letter_ignore_case(c, 'c') {
        Some(EditorMessage::EditorCopy)
    } else if is_letter_ignore_case(c, 'x') {
        Some(EditorMessage::EditorCut)
    } else if is_letter_ignore_case(c, 'v') {
        Some(EditorMessage::EditorPaste)
    } else if is_letter_ignore_case(c, 'z') {
        Some(if shift { EditorMessage::EditorRedo } else { EditorMessage::EditorUndo })
    } else if is_letter_ignore_case(c, 'y') {
        Some(EditorMessage::EditorRedo)
    } else if c == seq!['/'] {
        Some(EditorMessage::EditorToggleComment)
    } else {
        None
    }
}

/// `r` is what typing `text` produces: nothing for an empty text or one
/// holding a control char, a single typed char for a one-char text, and a
/// literal insertion otherwise.
pub open spec fn typed_text_yields(text: Option<Seq<char>>, r: Option<EditorMessage>) -> bool {
    match text {
        None => r is None,
        Some(t) => if t.len() == 0 || exists|i: int| 0 <= i < t.len() && is_control(#[trigger] t[i]) {
            r is None
        } else if t.len() == 1 {
            r == Some(EditorMessage::EditorTypeChar(t[0]))
        } else {
            inserts(r, t)
        },
    }
}

/// `r` is the editor's answer to a key press: plain named keys navigate and
/// edit, Command-chords on characters run editing commands, other modified
/// keys are left alone, and plain text is typed.
pub open spec fn key_yields(
    key: EditorKey,
    modifiers: Modifiers,
    text: Option<Seq<char>>,
    ghost_shown: bool,
    line: usize,
    col: usize,
    r: Option<EditorMessage>,
) -> bool {
    if is_plain(modifiers) && key is Named {
        named_key_yields(key->Named_0, modifiers.shift, ghost_shown, line, col, r)
    } else if modifiers.command && key is Character {
        r == command_char_message(key->Character_0@, modifiers.shift)
    } else if !is_plain(modifiers) {
        r is None
    } else {
        typed_text_yields(text, r)
    }
}

/// Law: with Command held, a letter key runs the same editing command in
/// either case: A selects all, C copies, X cuts, V pastes, Z undoes (redoes
/// with Shift), Y redoes, and `/` toggles a line comment. In particular
/// paste and cut are different commands.
pub proof fn lemma_command_chords(
    key: EditorKey,
    modifiers: Modifiers,
    text: Option<Seq<char>>,
    ghost_shown: bool,
    line: usize,
    col: usize,
    r: Option<EditorMessage>,
)
    requires
        modifiers.command,
        key is Character,
        key_yields(key, modifiers, text, ghost_shown, line, col, r),
    ensures
        ({
            let s = key->Character_0@;
            &&& (s == seq!['a'] || s == seq!['A']) ==> r == Some(EditorMessage::EditorSelectAll)
            &&& (s == seq!['c'] || s == seq!['C']) ==> r == Some(EditorMessage::EditorCopy)
            &&& (s == seq!['x'] || s == seq!['X']) ==> r == Some(EditorMessage::EditorCut)
            &&& (s == seq!['v'] || s == seq!['V']) ==> r == Some(EditorMessage::EditorPaste)
            &&& (s == seq!['z'] || s == seq!['Z']) ==> r == Some(
                if modifiers.shift {
                    EditorMessage::EditorRedo
                } else {
                    EditorMessage::EditorUndo
                },
            )
            &&& (s == seq!['y'] || s == seq!['Y']) ==> r == Some(EditorMessage::EditorRedo)
            &&& s == seq!['/'] ==> r == Some(EditorMessage::EditorToggleComment)
        }),
{
    let s = key->Character_0@;
    assert('a' as u32 == 97 && 'A' as u32 == 65 && 'c' as u32 == 99 && 'C' as u32 == 67);
    assert('x' as u32 == 120 && 'X' as u32 == 88 && 'v' as u32 == 118 && 'V' as u32 == 86);
    assert('z' as u32 == 122 && 'Z' as u32 == 90 && 'y' as u32 == 121 && 'Y' as u32 == 89);
    assert('/' as u32 == 47);
}


fn is_control_char(c: char) -> (b: bool)
    ensures
        b == is_control(c),
{
    let u = c as u32;
    u <= 0x1f || (0x7f <= u && u <= 0x9f)
}

fn letter_ignore_case(s: &Vec<char>, lower: char, upper: char) -> (b: bool)
    requires
        (upper as u32) + 32 == (lower as u32),
        'a' <= lower <= 'z',
    ensures
        b == is_letter_ignore_case(s@, lower),
{
    if s.len() != 1 {
        return false;
    }
    let c = s[0];
    proof {
        if (c as u32) + 32 == (lower as u32) {
            vstd::utf8::char_u32_cast(c, c as u32);
            vstd::utf8::char_u32_cast(upper, upper as u32);
        }
    }
    c == lower || c == upper
}

/// What a key press does in the editor canvas, or `None` when the canvas
/// leaves the key to the rest of the application. `line`/`col` is the
/// caret, which F12 / Shift+F12 act on.
pub fn handle_key(
    key: &EditorKey,
    modifiers: Modifiers,
    text: Option<&str>,
    ghost_shown: bool,
    line: usize,
    col: usize,
) -> (r: Option<EditorMessage>)
    ensures
        key_yields(
            *key,
            modifiers,
            match text {
                Some(t) => Some(t@),
                None => None,
            },
            ghost_shown,
            line,
            col,
            r,
        ),
{
    let plain = !(modifiers.command || modifiers.control || modifiers.alt);
    if plain {
        if let EditorKey::Named(named) = key {
            let extend = modifiers.shift;
            return match named {
                NamedKey::Enter => {
                    let t = "\n".to_owned();
                    proof {
                        reveal_strlit("\n");
                        assert(t@ =~= seq!['\n']);
                    }
                    Some(EditorMessage::EditorInsertText(t))
                },
                NamedKey::Space => {
                    let t = " ".to_owned();
                    proof {
                        reveal_strlit(" ");
                        assert(t@ =~= seq![' ']);
                    }
                    Some(EditorMessage::EditorInsertText(t))
                },
                NamedKey::Backspace => Some(EditorMessage::EditorBackspace),
                NamedKey::Delete => Some(EditorMessage::EditorDelete),
                NamedKey::Tab => if extend {
                    Some(EditorMessage::EditorDedent)
                } else {
                    Some(EditorMessage::EditorIndent)
                },
                NamedKey::ArrowLeft => Some(EditorMessage::EditorMove { dir: Direction::Left, extend }),
                NamedKey::ArrowRight => Some(
                    EditorMessage::EditorMove { dir: Direction::Right, extend },
                ),
                NamedKey::ArrowUp => Some(EditorMessage::EditorMove { dir: Direction::Up, extend }),
                NamedKey::ArrowDown => Some(EditorMessage::EditorMove { dir: Direction::Down, extend }),
                NamedKey::Home => Some(EditorMessage::EditorMove { dir: Direction::LineStart, extend }),
                NamedKey::End => Some(EditorMessage::EditorMove { dir: Direction::LineEnd, extend }),
                NamedKey::Escape => if ghost_shown {
                    Some(EditorMessage::DismissGhostCompletion)
                } else {
                    None
                },
                NamedKey::F12 => if extend {
                    Some(EditorMessage::FindReferences { line, col })
                } else {
                    Some(EditorMessage::GoToDefinition { line, col })
                },
                NamedKey::Other => None,
            };
        }
    }
    if modifiers.command {
        if let EditorKey::Character(c) = key {
            let cs = chars_of(c.as_str());
            return if letter_ignore_case(&cs, 'a', 'A') {
                Some(EditorMessage::EditorSelectAll)
            } else if letter_ignore_case(&cs, 'c', 'C') {
                Some(EditorMessage::EditorCopy)
            } else if letter_ignore_case(&cs, 'x', 'X') {
                Some(EditorMessage::EditorCut)
            } else if letter_ignore_case(&cs, 'v', 'V') {
                Some(EditorMessage::EditorPaste)
            } else if letter_ignore_case(&cs, 'z', 'Z') {
                if modifiers.shift {
                    Some(EditorMessage::EditorRedo)
                } else {
                    Some(EditorMessage::EditorUndo)
                }
            } else if letter_ignore_case(&cs, 'y', 'Y') {
                Some(EditorMessage::EditorRedo)
            } else if cs.len() == 1 && cs[0] == '/' {
                proof {
                    assert(cs@ =~= seq!['/']);
                }
                Some(EditorMessage::EditorToggleComment)
            } else {
                proof {
                    if cs@ == seq!['/'] {
                        assert(cs@.len() == 1);
                    }
                }
                None
            };
        }
    }
    if !plain {
        return None;
    }
    let t = match text {
        Some(t) => t,
        None => return None,
    };
    let chars = chars_of(t);
    let n = chars.len();
    if n == 0 {
        return None;
    }
    let mut i: usize = 0;
    while i < n
        invariant
            chars@ == t@,
            n == chars@.len(),
            i <= n,
            forall|j: int| 0 <= j < i ==> !is_control(#[trigger] t@[j]),
            is_plain(modifiers),
            !(key is Named),
            text == Some(t),
        decreases n - i,
    {
        if is_control_char(chars[i]) {
            assert(is_control(t@[i as int]));
            return None;
        }
        i = i + 1;
    }
    if n == 1 {
        Some(EditorMessage::EditorTypeChar(chars[0]))
    } else {
        Some(EditorMessage::EditorInsertText(t.to_owned()))
    }
}

/// The inline suggestion shown at the caret: the first line of its text,
/// only when it was made for exactly the caret's position and that line
/// is not empty.
pub open spec fn spec_ghost_text(insert_text: Seq<char>, at: CursorPos, cursor: CursorPos) -> Option<Seq<char>> {
    let lines = lines_of(insert_text);
    if at == cursor && lines.len() > 0 && lines[0].len() > 0 {
        Some(lines[0])
    } else {
        None
    }
}

/// The first line of an inline completion, when it is positioned at the
/// caret (a suggestion left behind by cursor movement is not shown).
pub fn ghost_text(insert_text: &str, at: CursorPos, cursor: CursorPos) -> (r: Option<String>)
    ensures
        match r {
            Some(t) => spec_ghost_text(insert_text@, at, cursor) == Some(t@),
            None => spec_ghost_text(insert_text@, at, cursor) is None,
        },
{
    if at != cursor {
        return None;
    }
    let lines = text_lines(insert_text);
    proof {
        assert(lines@.map_values(|l: String| l@).len() == lines@.len());
    }
    if lines.len() == 0 {
        return None;
    }
    let first = lines[0].clone();
    proof {
        assert(lines@.map_values(|l: String| l@)[0] == lines@[0]@);
    }
    if first.as_str().is_empty() {
        None
    } else {
        Some(first)
    }
}

/// Two presses on the same cell this close together (in nanoseconds)
/// continue a click streak.
pub const CLICK_STREAK_WINDOW_NANOS: u64 = 450_000_000;

/// Where a press inside the canvas landed: the text cell under it, and
/// whether it was over the line-number gutter.
#[derive(Clone, Copy, Debug, PartialEq, Eq)]
pub struct CellHit {
    pub line: usize,
    pub col: usize,
    pub in_gutter: bool,
}

/// A canvas event, already reduced to cells: positions are resolved to
/// `(line, col)` by the caller's hit test, and times are nanoseconds on a
/// monotonic clock.
#[derive(Clone, Debug, PartialEq, Eq)]
pub enum CanvasEvent {
    /// Left button pressed; `hit` is `None` when outside the canvas.
    LeftPressed { hit: Option<CellHit>, now: u64 },
    /// Cursor moved; `in_bounds` is the cell under it while over the
    /// canvas, `anywhere` the (clamped) cell for any known position.
    CursorMoved { in_bounds: Option<(usize, usize)>, anywhere: Option<(usize, usize)> },
    LeftReleased,
    /// Right or middle button pressed.
    OtherPressed { in_bounds: bool },
    ModifiersChanged(Modifiers),
    KeyPressed { key: EditorKey, modifiers: Modifiers, text: Option<String> },
    Other,
}

/// What the canvas knows about the document around it when deciding.
#[derive(Clone, Debug)]
pub struct CanvasContext {
    /// Per buffer line: whether its gutter carries a diff marker.
    pub marked_lines: Vec<bool>,
    /// The line whose revert prompt is armed, if any.
    pub pending_revert_line: Option<usize>,
    /// An inline completion suggestion is showing.
    pub ghost_shown: bool,
    pub cursor_line: usize,
    pub cursor_col: usize,
}

/// A message to publish, and whether the event is captured by the canvas.
#[derive(Clone, Debug, PartialEq, Eq)]
pub struct CanvasAction {
    pub message: EditorMessage,
    pub capture: bool,
}

/// Purely local interaction state of the editor canvas.
#[derive(Clone, Copy, Debug, PartialEq, Eq)]
pub struct CanvasState {
    pub focused: bool,
    pub modifiers: Modifiers,
    /// From a left press until its release: moves extend the selection.
    pub dragging: bool,
    /// `(when, line, col)` of the last plain left press.
    pub last_click: Option<(u64, usize, usize)>,
    /// 1 = plain click, 2 = double (select word), 3 = triple (select line).
    pub click_streak: u8,
    /// The cell the mouse last rested over.
    pub hover_cell: Option<(usize, usize)>,
}

impl Default for CanvasState {
    fn default() -> (s: Self)
        ensures
            s == CanvasState::initial(),
    {
        CanvasState {
            focused: false,
            modifiers: Modifiers { shift: false, control: false, alt: false, command: false },
            dragging: false,
            last_click: None,
            click_streak: 0,
            hover_cell: None,
        }
    }
}

/// Time elapsed from `at` to `now`, saturating at zero.
pub open spec fn elapsed(at: u64, now: u64) -> int {
    if now >= at { now - at } else { 0 }
}

/// Whether `line` carries a gutter marker.
pub open spec fn line_marked(ctx: CanvasContext, line: usize) -> bool {
    line < ctx.marked_lines@.len() && ctx.marked_lines@[line as int]
}

/// `r` publishes `m` and captures the event.
pub open spec fn captures(r: Option<CanvasAction>, m: EditorMessage) -> bool {
    r == Some(CanvasAction { message: m, capture: true })
}

impl CanvasState {
    /// The state a fresh canvas starts in.
    pub open spec fn initial() -> CanvasState {
        CanvasState {
            focused: false,
            modifiers: Modifiers { shift: false, control: false, alt: false, command: false },
            dragging: false,
            last_click: None,
            click_streak: 0,
            hover_cell: None,
        }
    }

    /// The streak a plain press on `(line, col)` at `now` continues to:
    /// a press on the same cell within the window advances 1 → 2 → 3 → 1,
    /// anything else starts over at 1.
    pub open spec fn next_streak(self, line: usize, col: usize, now: u64) -> u8 {
        match self.last_click {
            Some((at, l, c)) => if l == line && c == col && elapsed(at, now)
                < CLICK_STREAK_WINDOW_NANOS {
                (self.click_streak % 3 + 1) as u8
            } else {
                1
            },
            None => 1,
        }
    }

    /// How a left press inside the canvas is answered, given the state
    /// before it (`self`) and after it (`new`).
    pub open spec fn left_press_step(
        self,
        ctx: CanvasContext,
        h: CellHit,
        now: u64,
        new: CanvasState,
        r: Option<CanvasAction>,
    ) -> bool {
        let (line, col) = (h.line, h.col);
        let base = CanvasState { focused: true, ..self };
        if self.modifiers.command {
            new == base && captures(r, EditorMessage::GoToDefinition { line, col })
        } else if h.in_gutter && line_marked(ctx, line) {
            new == base && captures(
                r,
                if ctx.pending_revert_line == Some(line) {
                    EditorMessage::RevertLine { line }
                } else {
                    EditorMessage::PromptRevertLine { line }
                },
            )
        } else if ctx.pending_revert_line is Some {
            new == base && captures(r, EditorMessage::CancelRevertLine)
        } else if self.modifiers.shift {
            new == CanvasState { dragging: true, last_click: None, click_streak: 0, ..base }
                && captures(r, EditorMessage::EditorClick { line, col, extend: true })
        } else {
            let streak = self.next_streak(line, col, now);
            new == CanvasState {
                dragging: true,
                last_click: Some((now, line, col)),
                click_streak: streak,
                ..base
            } && captures(
                r,
                if streak == 2 {
                    EditorMessage::EditorSelectWord { line, col }
                } else if streak == 3 {
                    EditorMessage::EditorSelectLine { line }
                } else {
                    EditorMessage::EditorClick { line, col, extend: false }
                },
            )
        }
    }

    /// How the canvas reacts to `ev`: `new` is the state afterwards and `r`
    /// the published action.
    pub open spec fn step(
        self,
        ctx: CanvasContext,
        ev: CanvasEvent,
        new: CanvasState,
        r: Option<CanvasAction>,
    ) -> bool {
        match ev {
            CanvasEvent::LeftPressed { hit, now } => match hit {
                None => new == CanvasState { focused: false, ..self } && r is None,
                Some(h) => self.left_press_step(ctx, h, now, new, r),
            },
            CanvasEvent::CursorMoved { in_bounds, anywhere } => if self.dragging {
                new == self && match anywhere {
                    None => r is None,
                    Some((line, col)) => captures(
                        r,
                        EditorMessage::EditorClick { line, col, extend: true },
                    ),
                }
            } else {
                match in_bounds {
                    Some((line, col)) => if self.hover_cell == Some((line, col)) {
                        new == self && r is None
                    } else {
                        new == CanvasState { hover_cell: Some((line, col)), ..self } && r == Some(
                            CanvasAction {
                                message: EditorMessage::EditorHoverMove { line, col },
                                capture: false,
                            },
                        )
                    },
                    None => new == CanvasState { hover_cell: None, ..self } && if self.hover_cell
                        is Some {
                        r == Some(
                            CanvasAction { message: EditorMessage::EditorHoverLeave, capture: false },
                        )
                    } else {
                        r is None
                    },
                }
            },
            CanvasEvent::LeftReleased => new == CanvasState { dragging: false, ..self } && r is None,
            CanvasEvent::OtherPressed { in_bounds } => new == CanvasState {
                focused: self.focused && in_bounds,
                ..self
            } && r is None,
            CanvasEvent::ModifiersChanged(m) => new == CanvasState { modifiers: m, ..self }
                && r is None,
            CanvasEvent::KeyPressed { key, modifiers, text } => new == CanvasState {
                modifiers,
                ..self
            } && if !self.focused {
                r is None
            } else {
                key_yields(
                    key,
                    modifiers,
                    match text {
                        Some(t) => Some(t@),
                        None => None,
                    },
                    ctx.ghost_shown,
                    ctx.cursor_line,
                    ctx.cursor_col,
                    match r {
                        Some(a) => Some(a.message),
                        None => None,
                    },
                ) && (r matches Some(a) ==> a.capture)
            },
            CanvasEvent::Other => new == self && r is None,
        }
    }

    /// Law: a left press outside the canvas hands keyboard focus away, so
    /// the key press that follows is left to the rest of the application.
    pub proof fn lemma_outside_press_releases_keys(
        self,
        ctx: CanvasContext,
        now: u64,
        key: EditorKey,
        modifiers: Modifiers,
        text: Option<String>,
        s1: CanvasState,
        r1: Option<CanvasAction>,
        s2: CanvasState,
        r2: Option<CanvasAction>,
    )
        requires
            self.step(ctx, CanvasEvent::LeftPressed { hit: None, now }, s1, r1),
            s1.step(ctx, CanvasEvent::KeyPressed { key, modifiers, text }, s2, r2),
        ensures
            r1 is None,
            r2 is None,
            !s2.focused,
    {
    }

    /// Law: repeated plain presses on one cell, each within the streak
    /// window of the last, select the word, then the line, then start
    /// over with a plain click — the click streak cycles 1, 2, 3, 1.
    pub proof fn lemma_click_streak_cycles(
        self,
        ctx: CanvasContext,
        h: CellHit,
        t1: u64,
        t2: u64,
        t3: u64,
        t4: u64,
        s1: CanvasState,
        r1: Option<CanvasAction>,
        s2: CanvasState,
        r2: Option<CanvasAction>,
        s3: CanvasState,
        r3: Option<CanvasAction>,
        s4: CanvasState,
        r4: Option<CanvasAction>,
    )
        requires
            self.last_click is None,
            !self.modifiers.command,
            !self.modifiers.shift,
            ctx.pending_revert_line is None,
            !(h.in_gutter && line_marked(ctx, h.line)),
            t1 <= t2 < t1 + CLICK_STREAK_WINDOW_NANOS,
            t2 <= t3 < t2 + CLICK_STREAK_WINDOW_NANOS,
            t3 <= t4 < t3 + CLICK_STREAK_WINDOW_NANOS,
            self.step(ctx, CanvasEvent::LeftPressed { hit: Some(h), now: t1 }, s1, r1),
            s1.step(ctx, CanvasEvent::LeftPressed { hit: Some(h), now: t2 }, s2, r2),
            s2.step(ctx, CanvasEvent::LeftPressed { hit: Some(h), now: t3 }, s3, r3),
            s3.step(ctx, CanvasEvent::LeftPressed { hit: Some(h), now: t4 }, s4, r4),
        ensures
            captures(r1, EditorMessage::EditorClick { line: h.line, col: h.col, extend: false }),
            captures(r2, EditorMessage::EditorSelectWord { line: h.line, col: h.col }),
            captures(r3, EditorMessage::EditorSelectLine { line: h.line }),
            captures(r4, EditorMessage::EditorClick { line: h.line, col: h.col, extend: false }),
    {
    }

    /// The message a plain press in a click streak of `streak` publishes.
    pub open spec fn streak_message(h: CellHit, streak: int) -> EditorMessage {
        if streak == 2 {
            EditorMessage::EditorSelectWord { line: h.line, col: h.col }
        } else if streak == 3 {
            EditorMessage::EditorSelectLine { line: h.line }
        } else {
            EditorMessage::EditorClick { line: h.line, col: h.col, extend: false }
        }
    }

    proof fn lemma_click_streak_prefix(
        self,
        ctx: CanvasContext,
        h: CellHit,
        ts: Seq<u64>,
        ss: Seq<CanvasState>,
        rs: Seq<Option<CanvasAction>>,
        n: int,
    )
        requires
            0 <= n <= ts.len(),
            ss.len() == ts.len() + 1,
            rs.len() == ts.len(),
            ss[0] == self,
            !self.modifiers.command,
            !self.modifiers.shift,
            ctx.pending_revert_line is None,
            !(h.in_gutter && line_marked(ctx, h.line)),
            ts.len() > 0 ==> self.next_streak(h.line, h.col, ts[0]) == 1,
            forall|m: int| 0 < m < ts.len() ==> elapsed(#[trigger] ts[m - 1], ts[m]) < CLICK_STREAK_WINDOW_NANOS,
            forall|m: int|
                0 <= m < ts.len() ==> (#[trigger] ss[m]).step(
                    ctx,
                    CanvasEvent::LeftPressed { hit: Some(h), now: ts[m] },
                    ss[m + 1],
                    rs[m],
                ),
        ensures
            ss[n].modifiers == self.modifiers,
            n > 0 ==> ss[n].last_click == Some((ts[n - 1], h.line, h.col)),
            n > 0 ==> ss[n].click_streak == (n - 1) % 3 + 1,
            forall|m: int|
                0 <= m < n ==> captures(#[trigger] rs[m], CanvasState::streak_message(h, m % 3 + 1))
                    && ss[m + 1].focused && ss[m + 1].dragging,
        decreases n,
    {
        if n > 0 {
            self.lemma_click_streak_prefix(ctx, h, ts, ss, rs, n - 1);
            let m = n - 1;
            let prev = ss[m];
            assert(prev.step(ctx, CanvasEvent::LeftPressed { hit: Some(h), now: ts[m] }, ss[m + 1], rs[m]));
            if m == 0 {
                assert(prev.next_streak(h.line, h.col, ts[0]) == 1);
            } else {
                assert(elapsed(ts[m - 1], ts[m]) < CLICK_STREAK_WINDOW_NANOS);
                assert(prev.next_streak(h.line, h.col, ts[m]) == (prev.click_streak % 3 + 1) as u8);
                assert((((m - 1) % 3 + 1) % 3 + 1) == m % 3 + 1);
            }
        }
    }

    /// Law: a run of plain presses on one cell, each within the streak
    /// window of the one before and the first starting a new streak, goes
    /// click, select word, select line, click, … for as long as it lasts:
    /// press `m` (from 0) publishes and captures the message of streak
    /// `m % 3 + 1`, and leaves the canvas focused and dragging.
    #[verifier::spinoff_prover]
    pub proof fn lemma_click_streak_run(
        self,
        ctx: CanvasContext,
        h: CellHit,
        ts: Seq<u64>,
        ss: Seq<CanvasState>,
        rs: Seq<Option<CanvasAction>>,
    )
        requires
            ss.len() == ts.len() + 1,
            rs.len() == ts.len(),
            ss[0] == self,
            !self.modifiers.command,
            !self.modifiers.shift,
            ctx.pending_revert_line is None,
            !(h.in_gutter && line_marked(ctx, h.line)),
            ts.len() > 0 ==> self.next_streak(h.line, h.col, ts[0]) == 1,
            forall|m: int| 0 < m < ts.len() ==> elapsed(#[trigger] ts[m - 1], ts[m]) < CLICK_STREAK_WINDOW_NANOS,
            forall|m: int|
                0 <= m < ts.len() ==> (#[trigger] ss[m]).step(
                    ctx,
                    CanvasEvent::LeftPressed { hit: Some(h), now: ts[m] },
                    ss[m + 1],
                    rs[m],
                ),
        ensures
            forall|m: int|
                0 <= m < ts.len() ==> captures(#[trigger] rs[m], CanvasState::streak_message(h, m % 3 + 1))
                    && ss[m + 1].focused && ss[m + 1].dragging,
    {
        self.lemma_click_streak_prefix(ctx, h, ts, ss, rs, ts.len() as int);
        assert forall|m: int| 0 <= m < ts.len() implies captures(
            #[trigger] rs[m],
            CanvasState::streak_message(h, m % 3 + 1),
        ) && ss[m + 1].focused && ss[m + 1].dragging by {}
    }

    /// Law: while the button stays down after a plain press inside the
    /// canvas, every cursor move extends the selection to the cell under
    /// it; a release ends that.
    pub proof fn lemma_drag_extends_until_release(
        self,
        ctx: CanvasContext,
        h: CellHit,
        now: u64,
        cell: (usize, usize),
        s1: CanvasState,
        r1: Option<CanvasAction>,
        s2: CanvasState,
        r2: Option<CanvasAction>,
        s3: CanvasState,
        r3: Option<CanvasAction>,
    )
        requires
            !self.modifiers.command,
            ctx.pending_revert_line is None,
            !(h.in_gutter && line_marked(ctx, h.line)),
            self.step(ctx, CanvasEvent::LeftPressed { hit: Some(h), now }, s1, r1),
            s1.step(
                ctx,
                CanvasEvent::CursorMoved { in_bounds: Some(cell), anywhere: Some(cell) },
                s2,
                r2,
            ),
            s2.step(ctx, CanvasEvent::LeftReleased, s3, r3),
        ensures
            captures(r2, EditorMessage::EditorClick { line: cell.0, col: cell.1, extend: true }),
            !s3.dragging,
    {
    }

    /// Handles one canvas event, updating the interaction state and
    /// returning the message to publish, if any.
    pub fn update(&mut self, ctx: &CanvasContext, ev: &CanvasEvent) -> (r: Option<CanvasAction>)
        ensures
            old(self).step(*ctx, *ev, *final(self), r),
    {
        match ev {
            CanvasEvent::LeftPressed { hit, now } => {
                let h = match hit {
                    None => {
                        self.focused = false;
                        return None;
                    },
                    Some(h) => *h,
                };
                self.focused = true;
                let line = h.line;
                let col = h.col;
                if self.modifiers.command {
                    return Some(
                        CanvasAction {
                            message: EditorMessage::GoToDefinition { line, col },
                            capture: true,
                        },
                    );
                }
                let marked = line < ctx.marked_lines.len() && ctx.marked_lines[line];
                if h.in_gutter && marked {
                    let message = if ctx.pending_revert_line == Some(line) {
                        EditorMessage::RevertLine { line }
                    } else {
                        EditorMessage::PromptRevertLine { line }
                    };
                    return Some(CanvasAction { message, capture: true });
                }
                if ctx.pending_revert_line.is_some() {
                    return Some(
                        CanvasAction { message: EditorMessage::CancelRevertLine, capture: true },
                    );
                }
                self.dragging = true;
                if self.modifiers.shift {
                    self.last_click = None;
                    self.click_streak = 0;
                    return Some(
                        CanvasAction {
                            message: EditorMessage::EditorClick { line, col, extend: true },
                            capture: true,
                        },
                    );
                }
                let now = *now;
                let repeats_last = match self.last_click {
                    Some((at, l, c)) => {
                        let gap = if now >= at { now - at } else { 0 };
                        l == line && c == col && gap < CLICK_STREAK_WINDOW_NANOS
                    },
                    None => false,
                };
                self.click_streak = if repeats_last { self.click_streak % 3 + 1 } else { 1 };
                self.last_click = Some((now, line, col));
                let message = if self.click_streak == 2 {
                    EditorMessage::EditorSelectWord { line, col }
                } else if self.click_streak == 3 {
                    EditorMessage::EditorSelectLine { line }
                } else {
                    EditorMessage::EditorClick { line, col, extend: false }
                };
                Some(CanvasAction { message, capture: true })
            },
            CanvasEvent::CursorMoved { in_bounds, anywhere } => {
                if self.dragging {
                    match anywhere {
                        None => None,
                        Some((line, col)) => Some(
                            CanvasAction {
                                message: EditorMessage::EditorClick {
                                    line: *line,
                                    col: *col,
                                    extend: true,
                                },
                                capture: true,
                            },
                        ),
                    }
                } else {
                    match in_bounds {
                        Some(cell) => {
                            if self.hover_cell == Some(*cell) {
                                None
                            } else {
                                self.hover_cell = Some(*cell);
                                Some(
                                    CanvasAction {
                                        message: EditorMessage::EditorHoverMove {
                                            line: cell.0,
                                            col: cell.1,
                                        },
                                        capture: false,
                                    },
                                )
                            }
                        },
                        None => {
                            let had = self.hover_cell.is_some();
                            self.hover_cell = None;
                            if had {
                                Some(
                                    CanvasAction {
                                        message: EditorMessage::EditorHoverLeave,
                                        capture: false,
                                    },
                                )
                            } else {
                                None
                            }
                        },
                    }
                }
            },
            CanvasEvent::LeftReleased => {
                self.dragging = false;
                None
            },
            CanvasEvent::OtherPressed { in_bounds } => {
                if !*in_bounds {
                    self.focused = false;
                }
                None
            },
            CanvasEvent::ModifiersChanged(m) => {
                self.modifiers = *m;
                None
            },
            CanvasEvent::KeyPressed { key, modifiers, text } => {
                self.modifiers = *modifiers;
                if !self.focused {
                    return None;
                }
                let t = match text {
                    Some(t) => Some(t.as_str()),
                    None => None,
                };
                let m = handle_key(
                    key,
                    *modifiers,
                    t,
                    ctx.ghost_shown,
                    ctx.cursor_line,
                    ctx.cursor_col,
                );
                match m {
                    Some(message) => Some(CanvasAction { message, capture: true }),
                    None => None,
                }
            },
            CanvasEvent::Other => None,
        }
    }
}

} // verus!
