//! The terminal's keyboard encoding and text selection.
use vstd::prelude::*;

use crate::text::{chars_of, is_ws, push_all, string_from_chars, trim_end, trim_end_chars};

verus! {

/// The terminal panel's own UI state.
pub struct TerminalState {
    pub focused: bool,
    pub auto_focus: bool,
    pub last_cols: u16,
    pub last_rows: u16,
    /// Selection anchor (row, col), set when the mouse is pressed.
    pub sel_start: Option<(u16, u16)>,
    /// Selection end (row, col), updated while dragging.
    pub sel_end: Option<(u16, u16)>,
    /// Set by the context menu's Copy; the copy happens on the next frame.
    pub pending_copy: bool,
}

impl Default for TerminalState {
    fn default() -> (r: Self)
        ensures
            !r.focused,
            r.auto_focus,
            r.last_cols == 80,
            r.last_rows == 24,
            r.sel_start is None,
            r.sel_end is None,
            !r.pending_copy,
    {
        TerminalState {
            focused: false,
            auto_focus: true,
            last_cols: 80,
            last_rows: 24,
            sel_start: None,
            sel_end: None,
            pending_copy: false,
        }
    }
}

impl TerminalState {
    /// The selection's corners, where both are set.
    pub open spec fn selection_of(self) -> Option<((u16, u16), (u16, u16))> {
        match (self.sel_start, self.sel_end) {
            (Some(a), Some(b)) => Some((a, b)),
            _ => None,
        }
    }

    /// The selection's corners, where both are set.
    pub fn selection(&self) -> (r: Option<((u16, u16), (u16, u16))>)
        ensures
            r == self.selection_of(),
    {
        match (self.sel_start, self.sel_end) {
            (Some(a), Some(b)) => Some((a, b)),
            _ => None,
        }
    }

    /// The start of a frame. A copy asked for in the last frame is taken: the
    /// corners to copy are returned (where both are set) and the selection is
    /// cleared. A terminal asked to take focus takes it.
    pub fn begin_frame(&mut self) -> (r: Option<((u16, u16), (u16, u16))>)
        ensures
            r == (if old(self).pending_copy {
                old(self).selection_of()
            } else {
                None
            }),
            *final(self) == (TerminalState {
                focused: old(self).focused || old(self).auto_focus,
                auto_focus: false,
                sel_start: if old(self).pending_copy {
                    None
                } else {
                    old(self).sel_start
                },
                sel_end: if old(self).pending_copy {
                    None
                } else {
                    old(self).sel_end
                },
                pending_copy: false,
                ..*old(self)
            }),
    {
        let mut r = None;
        if self.pending_copy {
            self.pending_copy = false;
            r = self.selection();
            self.sel_start = None;
            self.sel_end = None;
        }
        if self.auto_focus {
            self.focused = true;
            self.auto_focus = false;
        }
        r
    }

    /// A click in the terminal focuses it; a click of the primary button also
    /// clears the selection.
    pub fn on_click(&mut self, primary: bool)
        ensures
            *final(self) == (TerminalState {
                focused: true,
                sel_start: if primary {
                    None
                } else {
                    old(self).sel_start
                },
                sel_end: if primary {
                    None
                } else {
                    old(self).sel_end
                },
                ..*old(self)
            }),
    {
        self.focused = true;
        if primary {
            self.sel_start = None;
            self.sel_end = None;
        }
    }

    /// A primary-button drag starting on `cell` begins a new selection there.
    pub fn on_drag_start(&mut self, cell: (u16, u16))
        ensures
            *final(self) == (TerminalState { sel_start: Some(cell), sel_end: None, ..*old(self) }),
    {
        self.sel_start = Some(cell);
        self.sel_end = None;
    }

    /// A primary-button drag over `cell` moves the selection's end there.
    pub fn on_drag(&mut self, cell: (u16, u16))
        ensures
            *final(self) == (TerminalState { sel_end: Some(cell), ..*old(self) }),
    {
        self.sel_end = Some(cell);
    }

    /// Copy chosen in the context menu: the copy runs at the next frame's
    /// start, while the selection is still there.
    pub fn request_copy(&mut self)
        ensures
            *final(self) == (TerminalState { pending_copy: true, ..*old(self) }),
    {
        self.pending_copy = true;
    }

    /// The panel measured `cols` × `rows` cells; whether that differs from
    /// the last size, in which case the sessions are resized and the size
    /// recorded.
    pub fn resize_to(&mut self, cols: u16, rows: u16) -> (r: bool)
        ensures
            r == (cols != old(self).last_cols || rows != old(self).last_rows),
            *final(self) == (TerminalState { last_cols: cols, last_rows: rows, ..*old(self) }),
    {
        let changed = cols != self.last_cols || rows != self.last_rows;
        self.last_cols = cols;
        self.last_rows = rows;
        changed
    }

    /// A tab was switched to: the terminal takes focus at the next frame.
    pub fn request_focus(&mut self)
        ensures
            *final(self) == (TerminalState { auto_focus: true, ..*old(self) }),
    {
        self.auto_focus = true;
    }

    /// A new tab opened: the terminal is focused now and stays so at the
    /// next frame.
    pub fn focus_new_tab(&mut self)
        ensures
            *final(self) == (TerminalState { focused: true, auto_focus: true, ..*old(self) }),
    {
        self.focused = true;
        self.auto_focus = true;
    }

    /// An open tab was chosen again from the sidebar: the terminal is focused.
    pub fn focus(&mut self)
        ensures
            *final(self) == (TerminalState { focused: true, ..*old(self) }),
    {
        self.focused = true;
    }

    /// A dialog or the settings view is open: keystrokes must not reach the
    /// terminal, which gives up focus.
    pub fn blur(&mut self)
        ensures
            *final(self) == (TerminalState { focused: false, ..*old(self) }),
    {
        self.focused = false;
    }
}

/// What the terminal panel reports after a frame.
pub struct TerminalEvents {
    pub focused: bool,
    pub cols: u16,
    pub rows: u16,
}

impl Default for TerminalEvents {
    fn default() -> (r: Self)
        ensures
            !r.focused,
            r.cols == 0,
            r.rows == 0,
    {
        TerminalEvents { focused: false, cols: 0, rows: 0 }
    }
}

/// The keys the terminal encodes.
#[derive(Debug, Clone, Copy, PartialEq, Eq, Structural)]
pub enum TermKey {
    /// A letter key, given as its uppercase ASCII letter.
    Letter(char),
    Enter,
    Backspace,
    Tab,
    Escape,
    Delete,
    Home,
    End,
    PageUp,
    PageDown,
    Insert,
    ArrowUp,
    ArrowDown,
    ArrowRight,
    ArrowLeft,
    /// A function key F1 to F12, by its number.
    Function(u8),
    /// Any other key.
    Other,
}

/// The control byte of Ctrl with a letter: `^A` is 1, ..., `^Z` is 26. Tab
/// (`I`), line feed (`J`), return (`M`) and paste (`V`) are left out.
pub open spec fn ctrl_code(c: char) -> Option<u8> {
    if 65 <= (c as u32) <= 90 && c != 'I' && c != 'J' && c != 'M' && c != 'V' {
        Some(((c as u32) - 64) as u8)
    } else {
        None
    }
}

/// `ESC [` followed by `tail`.
pub open spec fn csi(tail: Seq<u8>) -> Seq<u8> {
    seq![0x1bu8, 0x5bu8] + tail
}

/// The bytes a function key sends.
pub open spec fn function_key_bytes(n: u8) -> Option<Seq<u8>> {
    if n == 1 {
        Some(seq![0x1bu8, 0x4fu8, 0x50u8])
    } else if n == 2 {
        Some(seq![0x1bu8, 0x4fu8, 0x51u8])
    } else if n == 3 {
        Some(seq![0x1bu8, 0x4fu8, 0x52u8])
    } else if n == 4 {
        Some(seq![0x1bu8, 0x4fu8, 0x53u8])
    } else if n == 5 {
        Some(csi(seq![0x31u8, 0x35u8, 0x7eu8]))
    } else if n == 6 {
        Some(csi(seq![0x31u8, 0x37u8, 0x7eu8]))
    } else if n == 7 {
        Some(csi(seq![0x31u8, 0x38u8, 0x7eu8]))
    } else if n == 8 {
        Some(csi(seq![0x31u8, 0x39u8, 0x7eu8]))
    } else if n == 9 {
        Some(csi(seq![0x32u8, 0x30u8, 0x7eu8]))
    } else if n == 10 {
        Some(csi(seq![0x32u8, 0x31u8, 0x7eu8]))
    } else if n == 11 {
        Some(csi(seq![0x32u8, 0x33u8, 0x7eu8]))
    } else if n == 12 {
        Some(csi(seq![0x32u8, 0x34u8, 0x7eu8]))
    } else {
        None
    }
}

/// The bytes an arrow key sends: `ESC [ d`, or `ESC [ 1 ; 2 d` with Shift.
pub open spec fn arrow_bytes(d: u8, shift: bool) -> Seq<u8> {
    if shift {
        csi(seq![0x31u8, 0x3bu8, 0x32u8, d])
    } else {
        csi(seq![d])
    }
}

/// The bytes a key press sends to the terminal, xterm style; `None` for keys
/// that send nothing (plain letters arrive as text).
pub open spec fn key_bytes(key: TermKey, ctrl: bool, alt: bool, shift: bool) -> Option<Seq<u8>> {
    if ctrl && !alt && (key matches TermKey::Letter(c) && ctrl_code(c) is Some) {
        Some(seq![ctrl_code(key->Letter_0).unwrap()])
    } else {
        match key {
            TermKey::Enter => Some(seq![0x0du8]),
            TermKey::Backspace => Some(seq![0x7fu8]),
            TermKey::Tab => Some(seq![0x09u8]),
            TermKey::Escape => Some(seq![0x1bu8]),
            TermKey::Delete => Some(csi(seq![0x33u8, 0x7eu8])),
            TermKey::Home => Some(csi(seq![0x48u8])),
            TermKey::End => Some(csi(seq![0x46u8])),
            TermKey::PageUp => Some(csi(seq![0x35u8, 0x7eu8])),
            TermKey::PageDown => Some(csi(seq![0x36u8, 0x7eu8])),
            TermKey::Insert => Some(csi(seq![0x32u8, 0x7eu8])),
            TermKey::ArrowUp => Some(arrow_bytes(0x41u8, shift)),
            TermKey::ArrowDown => Some(arrow_bytes(0x42u8, shift)),
            TermKey::ArrowRight => Some(arrow_bytes(0x43u8, shift)),
            TermKey::ArrowLeft => Some(arrow_bytes(0x44u8, shift)),
            TermKey::Function(n) => function_key_bytes(n),
            _ => None,
        }
    }
}

/// The xterm sequence an arrow key sends: ESC `[` then the direction letter,
/// `A` up, `B` down, `C` right, `D` left; with Shift, ESC `[1;2` then the
/// letter. Control and Alt change nothing, and the four arrows send four
/// different sequences.
pub proof fn lemma_arrow_key_sequences(ctrl: bool, alt: bool, shift: bool)
    ensures
        key_bytes(TermKey::ArrowUp, ctrl, alt, shift) == Some(
            if shift {
                seq![0x1bu8, 0x5bu8, 0x31u8, 0x3bu8, 0x32u8, 0x41u8]
            } else {
                seq![0x1bu8, 0x5bu8, 0x41u8]
            },
        ),
        key_bytes(TermKey::ArrowDown, ctrl, alt, shift) == Some(
            if shift {
                seq![0x1bu8, 0x5bu8, 0x31u8, 0x3bu8, 0x32u8, 0x42u8]
            } else {
                seq![0x1bu8, 0x5bu8, 0x42u8]
            },
        ),
        key_bytes(TermKey::ArrowRight, ctrl, alt, shift) == Some(
            if shift {
                seq![0x1bu8, 0x5bu8, 0x31u8, 0x3bu8, 0x32u8, 0x43u8]
            } else {
                seq![0x1bu8, 0x5bu8, 0x43u8]
            },
        ),
        key_bytes(TermKey::ArrowLeft, ctrl, alt, shift) == Some(
            if shift {
                seq![0x1bu8, 0x5bu8, 0x31u8, 0x3bu8, 0x32u8, 0x44u8]
            } else {
                seq![0x1bu8, 0x5bu8, 0x44u8]
            },
        ),
        key_bytes(TermKey::ArrowUp, ctrl, alt, shift) != key_bytes(TermKey::ArrowDown, ctrl, alt, shift),
        key_bytes(TermKey::ArrowLeft, ctrl, alt, shift) != key_bytes(TermKey::ArrowRight, ctrl, alt, shift),
        key_bytes(TermKey::ArrowUp, ctrl, alt, shift) != key_bytes(TermKey::ArrowLeft, ctrl, alt, shift),
        key_bytes(TermKey::ArrowUp, ctrl, alt, shift) != key_bytes(TermKey::ArrowRight, ctrl, alt, shift),
        key_bytes(TermKey::ArrowDown, ctrl, alt, shift) != key_bytes(TermKey::ArrowLeft, ctrl, alt, shift),
        key_bytes(TermKey::ArrowDown, ctrl, alt, shift) != key_bytes(TermKey::ArrowRight, ctrl, alt, shift),
{
    let up = key_bytes(TermKey::ArrowUp, ctrl, alt, shift);
    let down = key_bytes(TermKey::ArrowDown, ctrl, alt, shift);
    let right = key_bytes(TermKey::ArrowRight, ctrl, alt, shift);
    let left = key_bytes(TermKey::ArrowLeft, ctrl, alt, shift);
    if shift {
        assert(up == Some(seq![0x1bu8, 0x5bu8, 0x31u8, 0x3bu8, 0x32u8, 0x41u8]));
        assert(down == Some(seq![0x1bu8, 0x5bu8, 0x31u8, 0x3bu8, 0x32u8, 0x42u8]));
        assert(right == Some(seq![0x1bu8, 0x5bu8, 0x31u8, 0x3bu8, 0x32u8, 0x43u8]));
        assert(left == Some(seq![0x1bu8, 0x5bu8, 0x31u8, 0x3bu8, 0x32u8, 0x44u8]));
        assert(up.unwrap()[5] != down.unwrap()[5]);
        assert(up.unwrap()[5] != left.unwrap()[5]);
        assert(up.unwrap()[5] != right.unwrap()[5]);
        assert(down.unwrap()[5] != left.unwrap()[5]);
        assert(down.unwrap()[5] != right.unwrap()[5]);
        assert(left.unwrap()[5] != right.unwrap()[5]);
    } else {
        assert(up == Some(seq![0x1bu8, 0x5bu8, 0x41u8]));
        assert(down == Some(seq![0x1bu8, 0x5bu8, 0x42u8]));
        assert(right == Some(seq![0x1bu8, 0x5bu8, 0x43u8]));
        assert(left == Some(seq![0x1bu8, 0x5bu8, 0x44u8]));
        assert(up.unwrap()[2] != down.unwrap()[2]);
        assert(up.unwrap()[2] != left.unwrap()[2]);
        assert(up.unwrap()[2] != right.unwrap()[2]);
        assert(down.unwrap()[2] != left.unwrap()[2]);
        assert(down.unwrap()[2] != right.unwrap()[2]);
        assert(left.unwrap()[2] != right.unwrap()[2]);
    }
}

/// The bytes of the editing keys, whatever the modifiers: Enter sends CR,
/// Backspace DEL, Tab HT, Escape ESC, and Delete, Home, End, Page Up, Page
/// Down and Insert their xterm sequences `ESC [3~`, `ESC [H`, `ESC [F`,
/// `ESC [5~`, `ESC [6~` and `ESC [2~`. Other keys send nothing.
pub proof fn lemma_editing_key_sequences(ctrl: bool, alt: bool, shift: bool)
    ensures
        key_bytes(TermKey::Enter, ctrl, alt, shift) == Some(seq![0x0du8]),
        key_bytes(TermKey::Backspace, ctrl, alt, shift) == Some(seq![0x7fu8]),
        key_bytes(TermKey::Tab, ctrl, alt, shift) == Some(seq![0x09u8]),
        key_bytes(TermKey::Escape, ctrl, alt, shift) == Some(seq![0x1bu8]),
        key_bytes(TermKey::Delete, ctrl, alt, shift) == Some(seq![0x1bu8, 0x5bu8, 0x33u8, 0x7eu8]),
        key_bytes(TermKey::Home, ctrl, alt, shift) == Some(seq![0x1bu8, 0x5bu8, 0x48u8]),
        key_bytes(TermKey::End, ctrl, alt, shift) == Some(seq![0x1bu8, 0x5bu8, 0x46u8]),
        key_bytes(TermKey::PageUp, ctrl, alt, shift) == Some(seq![0x1bu8, 0x5bu8, 0x35u8, 0x7eu8]),
        key_bytes(TermKey::PageDown, ctrl, alt, shift) == Some(seq![0x1bu8, 0x5bu8, 0x36u8, 0x7eu8]),
        key_bytes(TermKey::Insert, ctrl, alt, shift) == Some(seq![0x1bu8, 0x5bu8, 0x32u8, 0x7eu8]),
        key_bytes(TermKey::Other, ctrl, alt, shift) is None,
{
    assert(key_bytes(TermKey::Delete, ctrl, alt, shift) == Some(seq![0x1bu8, 0x5bu8, 0x33u8, 0x7eu8]));
    assert(key_bytes(TermKey::Home, ctrl, alt, shift) == Some(seq![0x1bu8, 0x5bu8, 0x48u8]));
    assert(key_bytes(TermKey::End, ctrl, alt, shift) == Some(seq![0x1bu8, 0x5bu8, 0x46u8]));
    assert(key_bytes(TermKey::PageUp, ctrl, alt, shift) == Some(seq![0x1bu8, 0x5bu8, 0x35u8, 0x7eu8]));
    assert(key_bytes(TermKey::PageDown, ctrl, alt, shift) == Some(seq![0x1bu8, 0x5bu8, 0x36u8, 0x7eu8]));
    assert(key_bytes(TermKey::Insert, ctrl, alt, shift) == Some(seq![0x1bu8, 0x5bu8, 0x32u8, 0x7eu8]));
}

/// Control with a letter sends the letter's control byte, its position in the
/// alphabet (Ctrl+C is 3, the interrupt), except for I, J, M and V, which are
/// left to Tab, line feed, Enter and paste; with Alt held too, or without
/// Control, a letter sends nothing, since letters arrive as text.
pub proof fn lemma_control_letters(c: char, ctrl: bool, alt: bool, shift: bool)
    requires
        'A' <= c <= 'Z',
    ensures
        ctrl && !alt && c != 'I' && c != 'J' && c != 'M' && c != 'V' ==> key_bytes(
            TermKey::Letter(c),
            ctrl,
            alt,
            shift,
        ) == Some(seq![((c as u32) - ('A' as u32) + 1) as u8]),
        !(ctrl && !alt && c != 'I' && c != 'J' && c != 'M' && c != 'V') ==> key_bytes(
            TermKey::Letter(c),
            ctrl,
            alt,
            shift,
        ) is None,
        ctrl && !alt ==> key_bytes(TermKey::Letter('C'), ctrl, alt, shift) == Some(seq![0x03u8]),
{
}

fn csi_exec(tail: &[u8]) -> (r: Vec<u8>)
    ensures
        r@ == csi(tail@),
{
    let mut r: Vec<u8> = Vec::new();
    r.push(0x1b);
    r.push(0x5b);
    let mut i: usize = 0;
    while i < tail.len()
        invariant
            i <= tail@.len(),
            r@ == csi(tail@.take(i as int)),
        decreases tail@.len() - i,
    {
        r.push(tail[i]);
        i += 1;
        assert(r@ =~= csi(tail@.take(i as int)));
    }
    assert(tail@.take(i as int) =~= tail@);
    r
}

fn arrow_exec(d: u8, shift: bool) -> (r: Vec<u8>)
    ensures
        r@ == arrow_bytes(d, shift),
{
    if shift {
        let t: [u8; 4] = [0x31, 0x3b, 0x32, d];
        let r = csi_exec(&t);
        assert(t@ =~= seq![0x31u8, 0x3bu8, 0x32u8, d]);
        r
    } else {
        let t: [u8; 1] = [d];
        let r = csi_exec(&t);
        assert(t@ =~= seq![d]);
        r
    }
}

fn function_key_exec(n: u8) -> (r: Option<Vec<u8>>)
    ensures
        match function_key_bytes(n) {
            None => r is None,
            Some(b) => r matches Some(v) && v@ == b,
        },
{
    if n >= 1 && n <= 4 {
        let last: u8 = 0x4f + n;
        let mut v: Vec<u8> = Vec::new();
        v.push(0x1b);
        v.push(0x4f);
        v.push(last);
        assert(v@ =~= function_key_bytes(n).unwrap());
        return Some(v);
    }
    let (a, b): (u8, u8) = if n == 5 {
        (0x31, 0x35)
    } else if n == 6 {
        (0x31, 0x37)
    } else if n == 7 {
        (0x31, 0x38)
    } else if n == 8 {
        (0x31, 0x39)
    } else if n == 9 {
        (0x32, 0x30)
    } else if n == 10 {
        (0x32, 0x31)
    } else if n == 11 {
        (0x32, 0x33)
    } else if n == 12 {
        (0x32, 0x34)
    } else {
        return None;
    };
    let t: [u8; 3] = [a, b, 0x7e];
    let v = csi_exec(&t);
    assert(t@ =~= seq![a, b, 0x7eu8]);
    Some(v)
}

/// The bytes a key press sends to the terminal; `None` for keys that send
/// nothing.
pub fn key_sequence(key: TermKey, ctrl: bool, alt: bool, shift: bool) -> (r: Option<Vec<u8>>)
    ensures
        match key_bytes(key, ctrl, alt, shift) {
            None => r is None,
            Some(b) => r matches Some(v) && v@ == b,
        },
{
    if ctrl && !alt {
        if let TermKey::Letter(c) = key {
            let u = c as u32;
            if 65 <= u && u <= 90 && c != 'I' && c != 'J' && c != 'M' && c != 'V' {
                let mut v: Vec<u8> = Vec::new();
                v.push((u - 64) as u8);
                return Some(v);
            }
        }
    }
    match key {
        TermKey::Enter => Some(vec![0x0d]),
        TermKey::Backspace => Some(vec![0x7f]),
        TermKey::Tab => Some(vec![0x09]),
        TermKey::Escape => Some(vec![0x1b]),
        TermKey::Delete => {
            let t: [u8; 2] = [0x33, 0x7e];
            assert(t@ =~= seq![0x33u8, 0x7eu8]);
            Some(csi_exec(&t))
        },
        TermKey::Home => {
            let t: [u8; 1] = [0x48];
            assert(t@ =~= seq![0x48u8]);
            Some(csi_exec(&t))
        },
        TermKey::End => {
            let t: [u8; 1] = [0x46];
            assert(t@ =~= seq![0x46u8]);
            Some(csi_exec(&t))
        },
        TermKey::PageUp => {
            let t: [u8; 2] = [0x35, 0x7e];
            assert(t@ =~= seq![0x35u8, 0x7eu8]);
            Some(csi_exec(&t))
        },
        TermKey::PageDown => {
            let t: [u8; 2] = [0x36, 0x7e];
            assert(t@ =~= seq![0x36u8, 0x7eu8]);
            Some(csi_exec(&t))
        },
        TermKey::Insert => {
            let t: [u8; 2] = [0x32, 0x7e];
            assert(t@ =~= seq![0x32u8, 0x7eu8]);
            Some(csi_exec(&t))
        },
        TermKey::ArrowUp => Some(arrow_exec(0x41, shift)),
        TermKey::ArrowDown => Some(arrow_exec(0x42, shift)),
        TermKey::ArrowRight => Some(arrow_exec(0x43, shift)),
        TermKey::ArrowLeft => Some(arrow_exec(0x44, shift)),
        TermKey::Function(n) => function_key_exec(n),
        _ => None,
    }
}


/// The input events the terminal consumes.
pub enum InputEvent {
    /// Typed text.
    Text(String),
    /// Pasted text (Ctrl+V, middle click).
    Paste(String),
    /// The copy shortcut, which a focused terminal treats as Ctrl+C.
    Copy,
    /// A key press or release with its modifiers.
    Key { key: TermKey, pressed: bool, ctrl: bool, alt: bool, shift: bool },
}

/// Whether a typed character is passed on; line breaks and tabs arrive as
/// key presses instead.
pub open spec fn passes_text(c: char) -> bool {
    c != '\n' && c != '\r' && c != '\t'
}

/// The bytes one input event sends to the terminal.
pub open spec fn event_bytes(e: InputEvent) -> Seq<u8> {
    match e {
        InputEvent::Text(t) => vstd::utf8::encode_utf8(t@.filter(|c: char| passes_text(c))),
        InputEvent::Paste(t) => vstd::utf8::encode_utf8(t@),
        InputEvent::Copy => seq![0x03u8],
        InputEvent::Key { key, pressed, ctrl, alt, shift } => if pressed {
            match key_bytes(key, ctrl, alt, shift) {
                Some(b) => b,
                None => seq![],
            }
        } else {
            seq![]
        },
    }
}

/// The bytes a list of input events sends, in order.
pub open spec fn events_bytes(es: Seq<InputEvent>) -> Seq<u8> {
    es.map_values(|e: InputEvent| event_bytes(e)).flatten()
}

fn push_bytes(out: &mut Vec<u8>, b: &[u8])
    ensures
        final(out)@ == old(out)@ + b@,
{
    let mut i: usize = 0;
    while i < b.len()
        invariant
            i <= b@.len(),
            out@ == old(out)@ + b@.take(i as int),
        decreases b@.len() - i,
    {
        out.push(b[i]);
        i += 1;
        assert(out@ =~= old(out)@ + b@.take(i as int));
    }
    assert(b@.take(i as int) =~= b@);
}

/// The bytes one input event sends to the terminal.
pub fn encode_event(e: &InputEvent) -> (r: Vec<u8>)
    ensures
        r@ == event_bytes(*e),
{
    let mut out: Vec<u8> = Vec::new();
    match e {
        InputEvent::Text(t) => {
            let cs = chars_of(t.as_str());
            let ghost pred = |c: char| passes_text(c);
            let mut kept: Vec<char> = Vec::new();
            let mut i: usize = 0;
            while i < cs.len()
                invariant
                    i <= cs@.len(),
                    pred == (|c: char| passes_text(c)),
                    kept@ == cs@.take(i as int).filter(pred),
                decreases cs@.len() - i,
            {
                let c = cs[i];
                proof {
                    let s = cs@.take(i + 1);
                    assert(s.drop_last() =~= cs@.take(i as int));
                    assert(s.last() == c);
                    reveal_with_fuel(Seq::<_>::filter, 1);
                }
                if c != '\n' && c != '\r' && c != '\t' {
                    kept.push(c);
                }
                i += 1;
            }
            assert(cs@.take(i as int) =~= cs@);
            let ks = string_from_chars(&kept);
            push_bytes(&mut out, ks.as_str().as_bytes());
        },
        InputEvent::Paste(t) => {
            push_bytes(&mut out, t.as_str().as_bytes());
        },
        InputEvent::Copy => {
            out.push(0x03);
        },
        InputEvent::Key { key, pressed, ctrl, alt, shift } => {
            if *pressed {
                match key_sequence(*key, *ctrl, *alt, *shift) {
                    Some(v) => {
                        push_bytes(&mut out, v.as_slice());
                    },
                    None => {},
                }
            }
        },
    }
    assert(out@ =~= event_bytes(*e));
    out
}

/// The bytes of a list of input events are those of each event in turn: no
/// events send nothing, one event sends its own bytes, and the bytes of two
/// lists one after the other are the bytes of the first followed by those of
/// the second.
pub proof fn lemma_events_bytes_concat(a: Seq<InputEvent>, b: Seq<InputEvent>, e: InputEvent)
    ensures
        events_bytes(Seq::<InputEvent>::empty()) == Seq::<u8>::empty(),
        events_bytes(seq![e]) == event_bytes(e),
        events_bytes(a + b) == events_bytes(a) + events_bytes(b),
{
    let f = |x: InputEvent| event_bytes(x);
    assert(Seq::<InputEvent>::empty().map_values(f) =~= Seq::<Seq<u8>>::empty());
    assert(seq![e].map_values(f) =~= seq![event_bytes(e)]);
    seq![event_bytes(e)].lemma_flatten_one_element();
    assert((a + b).map_values(f) =~= a.map_values(f) + b.map_values(f));
    vstd::seq_lib::lemma_flatten_concat(a.map_values(f), b.map_values(f));
}

/// The bytes a frame's input events send to the terminal, in order.
pub fn collect_input(events: &Vec<InputEvent>) -> (r: Vec<u8>)
    ensures
        r@ == events_bytes(events@),
{
    let mut out: Vec<u8> = Vec::new();
    let mut i: usize = 0;
    assert(events@.take(0).map_values(|e: InputEvent| event_bytes(e)) =~= Seq::<Seq<u8>>::empty());
    while i < events.len()
        invariant
            i <= events@.len(),
            out@ == events_bytes(events@.take(i as int)),
        decreases events@.len() - i,
    {
        let b = encode_event(&events[i]);
        push_bytes(&mut out, b.as_slice());
        proof {
            let es = events@;
            let f = |e: InputEvent| event_bytes(e);
            assert(es.take(i + 1) =~= es.take(i as int).push(es[i as int]));
            assert(es.take(i + 1).map_values(f) =~= es.take(i as int).map_values(f).push(
                event_bytes(es[i as int]),
            ));
            es.take(i as int).map_values(f).lemma_flatten_push(event_bytes(es[i as int]));
        }
        i += 1;
    }
    assert(events@.take(i as int) =~= events@);
    out
}

/// Whether cell `a` comes before or at cell `b` in reading order.
pub open spec fn cell_le(a: (u16, u16), b: (u16, u16)) -> bool {
    a.0 < b.0 || (a.0 == b.0 && a.1 <= b.1)
}

/// A selection's corners in reading order: `(r1, c1, r2, c2)` with the start
/// before the end.
pub open spec fn ordered_sel(a: (u16, u16), b: (u16, u16)) -> (u16, u16, u16, u16) {
    if cell_le(a, b) {
        (a.0, a.1, b.0, b.1)
    } else {
        (b.0, b.1, a.0, a.1)
    }
}

/// Normalizes a selection so that the start is not after the end.
pub fn sel_ordered(a: (u16, u16), b: (u16, u16)) -> (r: (u16, u16, u16, u16))
    ensures
        r == ordered_sel(a, b),
{
    let (r1, c1, r2, c2) = (a.0, a.1, b.0, b.1);
    if r1 < r2 || (r1 == r2 && c1 <= c2) {
        (r1, c1, r2, c2)
    } else {
        (r2, c2, r1, c1)
    }
}

/// A selection reads the same whichever corner it was started from, and its
/// start never comes after its end.
pub proof fn lemma_sel_ordered_symmetric(a: (u16, u16), b: (u16, u16))
    ensures
        ordered_sel(a, b) == ordered_sel(b, a),
        cell_le(
            (ordered_sel(a, b).0, ordered_sel(a, b).1),
            (ordered_sel(a, b).2, ordered_sel(a, b).3),
        ),
{
}


/// The text on the terminal screen: the contents of each cell, row by row.
/// A cell holds nothing, one character, or a character with combining marks,
/// and never a line feed.
pub struct ScreenText {
    /// The screen width in cells.
    pub(crate) cols: u16,
    pub(crate) cells: Vec<Vec<String>>,
}

impl ScreenText {
    /// The screen width in cells.
    pub closed spec fn width(self) -> u16 {
        self.cols
    }

    /// The contents of the cells, row by row.
    pub closed spec fn contents(self) -> Seq<Seq<Seq<char>>> {
        self.cells@.map_values(|row: Vec<String>| row@.map_values(|c: String| c@))
    }

    /// The screen width in cells.
    pub fn cols(&self) -> (r: u16)
        ensures
            r == self.width(),
    {
        self.cols
    }

    #[verifier::type_invariant]
    spec fn no_line_feeds(self) -> bool {
        cells_without_line_feeds(self)
    }

    /// The screen of width `cols` whose cells hold `cells`, row by row;
    /// `None` where a cell holds a line feed, which no terminal cell does.
    pub fn new(cols: u16, cells: Vec<Vec<String>>) -> (r: Option<ScreenText>)
        ensures
            r is Some <==> forall|i: int, j: int|
                0 <= i < cells@.len() && 0 <= j < cells@[i]@.len() ==> !(#[trigger] cells@[i]@[j])@.contains(
                    '\n',
                ),
            r matches Some(t) ==> t.width() == cols && t.contents() == cells@.map_values(
                |row: Vec<String>| row@.map_values(|c: String| c@),
            ),
    {
        let mut i: usize = 0;
        while i < cells.len()
            invariant
                i <= cells@.len(),
                forall|a: int, b: int|
                    0 <= a < i && 0 <= b < cells@[a]@.len() ==> !(#[trigger] cells@[a]@[b])@.contains(
                        '\n',
                    ),
            decreases cells@.len() - i,
        {
            let mut j: usize = 0;
            while j < cells[i].len()
                invariant
                    i < cells@.len(),
                    j <= cells@[i as int]@.len(),
                    forall|b: int| 0 <= b < j ==> !(#[trigger] cells@[i as int]@[b])@.contains('\n'),
                decreases cells@[i as int]@.len() - j,
            {
                if has_line_feed(cells[i][j].as_str()) {
                    return None;
                }
                j += 1;
            }
            i += 1;
        }
        Some(ScreenText { cols, cells })
    }
}

/// Whether `s` holds a line feed.
fn has_line_feed(s: &str) -> (r: bool)
    ensures
        r == s@.contains('\n'),
{
    let c = chars_of(s);
    let mut k: usize = 0;
    while k < c.len()
        invariant
            k <= c@.len(),
            c@ == s@,
            forall|m: int| 0 <= m < k ==> c@[m] != '\n',
        decreases c@.len() - k,
    {
        if c[k] == '\n' {
            assert(s@[k as int] == '\n');
            return true;
        }
        k += 1;
    }
    false
}

/// The text a cell contributes to a selection: its contents, a space for an
/// empty cell, nothing outside the screen.
pub open spec fn cell_text(s: ScreenText, row: int, col: int) -> Seq<char> {
    if 0 <= row < s.contents().len() && 0 <= col < s.contents()[row].len() {
        let c = s.contents()[row][col];
        if c.len() == 0 {
            seq![' ']
        } else {
            c
        }
    } else {
        seq![]
    }
}

/// The text of cells `from..=to` of `row`.
pub open spec fn line_text(s: ScreenText, row: int, from: int, to: int) -> Seq<char>
    decreases to - from + 1,
{
    if from > to {
        seq![]
    } else {
        line_text(s, row, from, to - 1) + cell_text(s, row, to)
    }
}

/// The selected text of `row` of the selection `sel` (ordered corners),
/// without trailing whitespace: from the start column on the first row, up to
/// the end column on the last, the whole width in between.
pub open spec fn sel_line(s: ScreenText, sel: (u16, u16, u16, u16), row: int) -> Seq<char> {
    let from = if row == sel.0 {
        sel.1 as int
    } else {
        0
    };
    let to = if row == sel.2 {
        sel.3 as int
    } else {
        s.width() - 1
    };
    trim_end(line_text(s, row, from, to))
}

/// The selected text of the rows before `upto`: the row texts, each after
/// the first non-empty one preceded by a line break.
pub open spec fn sel_text_upto(s: ScreenText, sel: (u16, u16, u16, u16), upto: int) -> Seq<char>
    decreases upto - sel.0,
{
    if upto <= sel.0 {
        seq![]
    } else {
        let prev = sel_text_upto(s, sel, upto - 1);
        let l = sel_line(s, sel, upto - 1);
        if prev.len() > 0 {
            prev + seq!['\n'] + l
        } else {
            l
        }
    }
}

/// The text a selection from `start` to `end` copies: the selected part of
/// each row, trailing whitespace removed.
pub open spec fn selection_text(s: ScreenText, start: (u16, u16), end: (u16, u16)) -> Seq<char> {
    let sel = ordered_sel(start, end);
    trim_end(sel_text_upto(s, sel, sel.2 + 1))
}

/// Whether extracting the selection stays within `u16` column arithmetic: a
/// screen at least one cell wide, or a selection on one row.
pub open spec fn selection_ok(s: ScreenText, start: (u16, u16), end: (u16, u16)) -> bool {
    s.width() >= 1 || ordered_sel(start, end).0 == ordered_sel(start, end).2
}

/// The text of cells `from..=to` of `row`.
fn line_text_exec(s: &ScreenText, row: u16, from: u16, to: u16) -> (r: Vec<char>)
    ensures
        r@ == line_text(*s, row as int, from as int, to as int),
{
    let mut r: Vec<char> = Vec::new();
    if from > to {
        return r;
    }
    let mut col: u32 = from as u32;
    assert(line_text(*s, row as int, from as int, from - 1) == Seq::<char>::empty());
    while col <= to as u32
        invariant
            from <= col <= to as u32 + 1,
            r@ == line_text(*s, row as int, from as int, col - 1),
        decreases to as u32 + 1 - col,
    {
        let ghost before = r@;
        let rw = row as usize;
        let cl = col as usize;
        if rw < s.cells.len() && cl < s.cells[rw].len() {
            let c = chars_of(s.cells[rw][cl].as_str());
            if c.len() == 0 {
                r.push(' ');
            } else {
                push_all(&mut r, &c);
            }
        }
        assert(r@ =~= before + cell_text(*s, row as int, col as int));
        col += 1;
    }
    r
}

/// The text a selection from `start` to `end` copies.
pub fn extract_selection(s: &ScreenText, start: (u16, u16), end: (u16, u16)) -> (r: String)
    requires
        selection_ok(*s, start, end),
    ensures
        r@ == selection_text(*s, start, end),
        r@ == selection_text(*s, end, start),
        lines_end_clean(r@),
        line_feeds(r@) <= (if start.0 >= end.0 {
            start.0 - end.0
        } else {
            end.0 - start.0
        }),
{
    proof {
        use_type_invariant(s);
        lemma_selection_text_laws(*s, start, end);
    }
    let (r1, c1, r2, c2) = sel_ordered(start, end);
    let ghost sel = (r1, c1, r2, c2);
    let mut out: Vec<char> = Vec::new();
    let mut row: u32 = r1 as u32;
    while row <= r2 as u32
        invariant
            sel == ordered_sel(start, end),
            sel == (r1, c1, r2, c2),
            s.cols >= 1 || r1 == r2,
            r1 <= row <= r2 as u32 + 1,
            out@ == sel_text_upto(*s, sel, row as int),
        decreases r2 as u32 + 1 - row,
    {
        let rw = row as u16;
        let col_from: u16 = if rw == r1 {
            c1
        } else {
            0
        };
        let col_to: u16 = if rw == r2 {
            c2
        } else {
            s.cols - 1
        };
        let line = line_text_exec(s, rw, col_from, col_to);
        let trimmed = trim_end_chars(&line);
        assert(trimmed@ == sel_line(*s, sel, row as int));
        let ghost before = out@;
        if out.len() > 0 {
            out.push('\n');
        }
        push_all(&mut out, &trimmed);
        assert(out@ =~= sel_text_upto(*s, sel, row + 1));
        row += 1;
    }
    let t = trim_end_chars(&out);
    string_from_chars(&t)
}

/// The number of line feeds in `s`.
pub open spec fn line_feeds(s: Seq<char>) -> nat
    decreases s.len(),
{
    if s.len() == 0 {
        0
    } else {
        line_feeds(s.drop_last()) + if s.last() == '\n' {
            1nat
        } else {
            0nat
        }
    }
}

/// Whether no cell of the screen holds a line feed, as no terminal cell does.
pub open spec fn cells_without_line_feeds(s: ScreenText) -> bool {
    forall|r: int, c: int|
        0 <= r < s.contents().len() && 0 <= c < s.contents()[r].len() ==> !(#[trigger] s.contents()[r][c]).contains(
            '\n',
        )
}

/// Whether no line of `s` ends in whitespace: the character before each line
/// feed is another line feed (an empty line) or no whitespace, and so is the
/// last character.
pub open spec fn lines_end_clean(s: Seq<char>) -> bool {
    &&& forall|k: int| 0 < k < s.len() && #[trigger] s[k] == '\n' ==> s[k - 1] == '\n' || !is_ws(s[k - 1])
    &&& (s.len() > 0 ==> !is_ws(s.last()))
}

proof fn lemma_trim_end_shape(s: Seq<char>)
    ensures
        trim_end(s).len() <= s.len(),
        trim_end(s) == s.take(trim_end(s).len() as int),
        trim_end(s).len() > 0 ==> !is_ws(trim_end(s).last()),
    decreases s.len(),
{
    if s.len() > 0 && is_ws(s.last()) {
        lemma_trim_end_shape(s.drop_last());
        let j = trim_end(s).len() as int;
        assert(s.drop_last().take(j) =~= s.take(j));
    } else {
        assert(s.take(s.len() as int) =~= s);
    }
}

proof fn lemma_line_feeds_take(s: Seq<char>, j: int)
    requires
        0 <= j <= s.len(),
    ensures
        line_feeds(s.take(j)) <= line_feeds(s),
    decreases s.len() - j,
{
    if j < s.len() {
        lemma_line_feeds_take(s.drop_last(), j);
        assert(s.drop_last().take(j) =~= s.take(j));
    } else {
        assert(s.take(j) =~= s);
    }
}

proof fn lemma_line_feeds_concat(a: Seq<char>, b: Seq<char>)
    ensures
        line_feeds(a + b) == line_feeds(a) + line_feeds(b),
    decreases b.len(),
{
    if b.len() > 0 {
        lemma_line_feeds_concat(a, b.drop_last());
        assert((a + b).drop_last() =~= a + b.drop_last());
        assert((a + b).last() == b.last());
    } else {
        assert(a + b =~= a);
    }
}

proof fn lemma_no_line_feeds(s: Seq<char>)
    requires
        !s.contains('\n'),
    ensures
        line_feeds(s) == 0,
    decreases s.len(),
{
    if s.len() > 0 {
        assert(s.last() == s[s.len() - 1]);
        assert(!s.drop_last().contains('\n')) by {
            if s.drop_last().contains('\n') {
                let k = choose|k: int| 0 <= k < s.drop_last().len() && s.drop_last()[k] == '\n';
                assert(s[k] == '\n');
            }
        }
        lemma_no_line_feeds(s.drop_last());
    }
}

proof fn lemma_line_text_no_line_feed(s: ScreenText, row: int, from: int, to: int)
    requires
        cells_without_line_feeds(s),
    ensures
        !line_text(s, row, from, to).contains('\n'),
    decreases to - from + 1,
{
    if from <= to {
        lemma_line_text_no_line_feed(s, row, from, to - 1);
        let a = line_text(s, row, from, to - 1);
        let c = cell_text(s, row, to);
        assert(!c.contains('\n')) by {
            if 0 <= row < s.contents().len() && 0 <= to < s.contents()[row].len() {
                assert(!s.contents()[row][to].contains('\n'));
            }
        }
        if (a + c).contains('\n') {
            let k = choose|k: int| 0 <= k < (a + c).len() && (a + c)[k] == '\n';
            if k < a.len() {
                assert(a[k] == '\n');
            } else {
                assert(c[k - a.len()] == '\n');
            }
        }
    }
}

proof fn lemma_sel_line_shape(s: ScreenText, sel: (u16, u16, u16, u16), row: int)
    requires
        cells_without_line_feeds(s),
    ensures
        !sel_line(s, sel, row).contains('\n'),
        sel_line(s, sel, row).len() > 0 ==> !is_ws(sel_line(s, sel, row).last()),
{
    let from = if row == sel.0 {
        sel.1 as int
    } else {
        0
    };
    let to = if row == sel.2 {
        sel.3 as int
    } else {
        s.width() - 1
    };
    let l = line_text(s, row, from, to);
    lemma_line_text_no_line_feed(s, row, from, to);
    lemma_trim_end_shape(l);
    let t = trim_end(l);
    if t.contains('\n') {
        let k = choose|k: int| 0 <= k < t.len() && t[k] == '\n';
        assert(l[k] == '\n');
    }
}

proof fn lemma_sel_text_upto_shape(s: ScreenText, sel: (u16, u16, u16, u16), upto: int)
    requires
        cells_without_line_feeds(s),
    ensures
        line_feeds(sel_text_upto(s, sel, upto)) <= (if upto > sel.0 {
            upto - sel.0 - 1
        } else {
            0
        }),
        forall|k: int|
            0 < k < sel_text_upto(s, sel, upto).len() && #[trigger] sel_text_upto(s, sel, upto)[k]
                == '\n' ==> sel_text_upto(s, sel, upto)[k - 1] == '\n' || !is_ws(
                sel_text_upto(s, sel, upto)[k - 1],
            ),
        sel_text_upto(s, sel, upto).len() > 0 ==> sel_text_upto(s, sel, upto).last() == '\n'
            || !is_ws(sel_text_upto(s, sel, upto).last()),
    decreases upto - sel.0,
{
    if upto > sel.0 {
        lemma_sel_text_upto_shape(s, sel, upto - 1);
        let prev = sel_text_upto(s, sel, upto - 1);
        let l = sel_line(s, sel, upto - 1);
        lemma_sel_line_shape(s, sel, upto - 1);
        lemma_no_line_feeds(l);
        let x = sel_text_upto(s, sel, upto);
        if prev.len() > 0 {
            let nl = seq!['\n'];
            assert(x == prev + nl + l);
            lemma_line_feeds_concat(prev, nl);
            lemma_line_feeds_concat(prev + nl, l);
            assert(line_feeds(nl) == 1) by {
                assert(nl.drop_last() =~= Seq::<char>::empty());
                assert(line_feeds(nl.drop_last()) == 0);
                assert(nl.last() == '\n');
            }
            assert(upto - 1 > sel.0);
            assert forall|k: int| 0 < k < x.len() && #[trigger] x[k] == '\n' implies x[k - 1]
                == '\n' || !is_ws(x[k - 1]) by {
                if k < prev.len() {
                    assert(x[k] == prev[k] && x[k - 1] == prev[k - 1]);
                } else if k == prev.len() {
                    assert(x[k - 1] == prev.last());
                } else {
                    assert(x[k] == l[k - prev.len() - 1]);
                }
            }
            if l.len() > 0 {
                assert(x.last() == l.last());
            } else {
                assert(x =~= prev + nl);
            }
        } else {
            assert(x == l);
            assert forall|k: int| 0 < k < x.len() && #[trigger] x[k] == '\n' implies x[k - 1]
                == '\n' || !is_ws(x[k - 1]) by {
                assert(l.contains(x[k]));
            }
        }
    }
}

/// What a selection copies does not depend on which corner it was started
/// from, and does not end in whitespace. Where no cell holds a line feed, no
/// line of it ends in whitespace and it has at most one line per selected
/// row.
pub proof fn lemma_selection_text_laws(s: ScreenText, a: (u16, u16), b: (u16, u16))
    ensures
        selection_text(s, a, b) == selection_text(s, b, a),
        selection_text(s, a, b).len() > 0 ==> !is_ws(selection_text(s, a, b).last()),
        cells_without_line_feeds(s) ==> lines_end_clean(selection_text(s, a, b)),
        cells_without_line_feeds(s) ==> line_feeds(selection_text(s, a, b)) <= (if a.0 >= b.0 {
            a.0 - b.0
        } else {
            b.0 - a.0
        }),
{
    lemma_sel_ordered_symmetric(a, b);
    let sel = ordered_sel(a, b);
    let x = sel_text_upto(s, sel, sel.2 + 1);
    lemma_trim_end_shape(x);
    let r = trim_end(x);
    assert(r == selection_text(s, a, b));
    if cells_without_line_feeds(s) {
        lemma_sel_text_upto_shape(s, sel, sel.2 + 1);
        lemma_line_feeds_take(x, r.len() as int);
        assert forall|k: int| 0 < k < r.len() && #[trigger] r[k] == '\n' implies r[k - 1] == '\n'
            || !is_ws(r[k - 1]) by {
            assert(r[k] == x[k] && r[k - 1] == x[k - 1]);
        }
    }
}

} // verus!
