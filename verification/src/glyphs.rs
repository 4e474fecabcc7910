//! Short text glyphs standing in for icons: completion-kind tags,
//! breadcrumb scope glyphs, and the modifier keys drawn as vector icons.
use vstd::prelude::*;

verus! {

/// The kind of a completion item, as the language server reports it.
#[derive(Clone, Copy, Debug, PartialEq, Eq, Structural)]
pub enum CompletionItemKind {
    Text,
    Method,
    Function,
    Constructor,
    Field,
    Variable,
    Class,
    Interface,
    Module,
    Property,
    Unit,
    Value,
    Enum,
    Keyword,
    Snippet,
    Color,
    File,
    Reference,
    Folder,
    EnumMember,
    Constant,
    Struct,
    Event,
    Operator,
    TypeParameter,
}

/// The VS Code-style tag of a completion kind; `None` for kinds too rare
/// to tag.
pub open spec fn spec_kind_tag(kind: Option<CompletionItemKind>) -> Option<Seq<char>> {
    match kind {
        None => None,
        Some(k) => match k {
            CompletionItemKind::Method => Some(seq!['m']),
            CompletionItemKind::Function | CompletionItemKind::Constructor => Some(seq!['f']),
            CompletionItemKind::Field | CompletionItemKind::Property => Some(seq!['p']),
            CompletionItemKind::Variable => Some(seq!['v']),
            CompletionItemKind::Class | CompletionItemKind::Struct => Some(seq!['c']),
            CompletionItemKind::Interface => Some(seq!['i']),
            CompletionItemKind::Module => Some(seq!['m', 'o', 'd']),
            CompletionItemKind::Enum => Some(seq!['e']),
            CompletionItemKind::EnumMember => Some(seq!['e', 'm']),
            CompletionItemKind::Constant => Some(seq!['k']),
            CompletionItemKind::Keyword => Some(seq!['k', 'w']),
            CompletionItemKind::Snippet => Some(seq!['s', 'n']),
            _ => None,
        },
    }
}

/// Short, fixed-width tag for a completion item's kind.
pub fn kind_tag(kind: Option<CompletionItemKind>) -> (t: Option<&'static str>)
    ensures
        match t {
            Some(s) => spec_kind_tag(kind) == Some(s@),
            None => spec_kind_tag(kind) is None,
        },
{
    proof {
        reveal_strlit("m");
        reveal_strlit("f");
        reveal_strlit("p");
        reveal_strlit("v");
        reveal_strlit("c");
        reveal_strlit("i");
        reveal_strlit("mod");
        reveal_strlit("e");
        reveal_strlit("em");
        reveal_strlit("k");
        reveal_strlit("kw");
        reveal_strlit("sn");
    }
    let kind = match kind {
        Some(k) => k,
        None => return None,
    };
    let t = match kind {
        CompletionItemKind::Method => "m",
        CompletionItemKind::Function | CompletionItemKind::Constructor => "f",
        CompletionItemKind::Field | CompletionItemKind::Property => "p",
        CompletionItemKind::Variable => "v",
        CompletionItemKind::Class | CompletionItemKind::Struct => "c",
        CompletionItemKind::Interface => "i",
        CompletionItemKind::Module => "mod",
        CompletionItemKind::Enum => "e",
        CompletionItemKind::EnumMember => "em",
        CompletionItemKind::Constant => "k",
        CompletionItemKind::Keyword => "kw",
        CompletionItemKind::Snippet => "sn",
        _ => return None,
    };
    proof {
        assert(spec_kind_tag(Some(kind)) == Some(t@));
    }
    Some(t)
}

/// The kind of scope a breadcrumb stands for.
#[derive(Clone, Copy, Debug, PartialEq, Eq, Structural)]
pub enum CrumbKind {
    Module,
    Type,
    Function,
    Closure,
    Loop,
    Conditional,
    Match,
}

/// The glyph of a scope kind.
pub open spec fn spec_crumb_glyph(kind: CrumbKind) -> Seq<char> {
    match kind {
        CrumbKind::Module => seq!['\u{25a3}'],
        CrumbKind::Type => seq!['\u{25c6}'],
        CrumbKind::Function => seq!['\u{192}'],
        CrumbKind::Closure => seq!['\u{3bb}'],
        CrumbKind::Loop => seq!['\u{21bb}'],
        CrumbKind::Conditional => seq!['?'],
        CrumbKind::Match => seq!['\u{2261}'],
    }
}

/// A glyph per `CrumbKind`: plain characters standing in for icons.
pub fn glyph(kind: CrumbKind) -> (g: &'static str)
    ensures
        g@ == spec_crumb_glyph(kind),
{
    proof {
        reveal_strlit("\u{25a3}");
        reveal_strlit("\u{25c6}");
        reveal_strlit("\u{192}");
        reveal_strlit("\u{3bb}");
        reveal_strlit("\u{21bb}");
        reveal_strlit("?");
        reveal_strlit("\u{2261}");
    }
    match kind {
        CrumbKind::Module => "\u{25a3}",
        CrumbKind::Type => "\u{25c6}",
        CrumbKind::Function => "\u{192}",
        CrumbKind::Closure => "\u{3bb}",
        CrumbKind::Loop => "\u{21bb}",
        CrumbKind::Conditional => "?",
        CrumbKind::Match => "\u{2261}",
    }
}

/// The macOS modifier keys drawn as vector glyphs.
#[derive(Debug, Clone, Copy, PartialEq, Eq, Structural)]
pub enum ModifierGlyph {
    /// ⌘ — the primary modifier (`Command`).
    Command,
    /// ⇧ — Shift.
    Shift,
    /// ⌥ — Option/Alt.
    Option,
    /// ⌃ — the literal physical Control key.
    Control,
}

/// One key of a keyboard shortcut, as the shortcuts table lists it.
#[derive(Clone, Copy, Debug)]
pub enum Key {
    /// The primary modifier: Command on macOS, Ctrl elsewhere.
    Primary,
    Shift,
    /// Option on macOS, Alt elsewhere.
    Alt,
    /// The literal physical Control key, Ctrl on every platform.
    Control,
    /// Anything that is not a modifier: a letter, a symbol or a named key.
    Lit(&'static str),
}

/// The drawn glyph that stands for a modifier key where modifiers are
/// drawn as icons; `None` for a literal key.
pub open spec fn spec_key_glyph(key: Key) -> Option<ModifierGlyph> {
    match key {
        Key::Primary => Some(ModifierGlyph::Command),
        Key::Shift => Some(ModifierGlyph::Shift),
        Key::Alt => Some(ModifierGlyph::Option),
        Key::Control => Some(ModifierGlyph::Control),
        Key::Lit(_) => None,
    }
}

/// The glyph drawn for `key` on a platform that draws its modifiers.
pub fn key_glyph(key: Key) -> (g: Option<ModifierGlyph>)
    ensures
        g == spec_key_glyph(key),
{
    match key {
        Key::Primary => Some(ModifierGlyph::Command),
        Key::Shift => Some(ModifierGlyph::Shift),
        Key::Alt => Some(ModifierGlyph::Option),
        Key::Control => Some(ModifierGlyph::Control),
        Key::Lit(_) => None,
    }
}

/// The text written on a key cap where modifiers are spelled out.
pub open spec fn spec_keycap_label(key: Key) -> Seq<char> {
    match key {
        Key::Primary | Key::Control => seq!['C', 't', 'r', 'l'],
        Key::Shift => seq!['S', 'h', 'i', 'f', 't'],
        Key::Alt => seq!['A', 'l', 't'],
        Key::Lit(s) => s@,
    }
}

/// The label of a key cap: modifiers spelled out, any other key as given.
pub fn keycap_label(key: Key) -> (label: &'static str)
    ensures
        label@ == spec_keycap_label(key),
{
    proof {
        reveal_strlit("Ctrl");
        reveal_strlit("Shift");
        reveal_strlit("Alt");
    }
    match key {
        Key::Primary | Key::Control => "Ctrl",
        Key::Shift => "Shift",
        Key::Alt => "Alt",
        Key::Lit(s) => s,
    }
}

} // verus!
