//! The shape of the cursor in each mode.
use vstd::prelude::*;
use crate::mode::Mode;
use crate::text::{chars_of, lower_text, push_str, spells, to_lower_text};

verus! {

/// The shapes that the user asked for, by name.
#[derive(Debug)]
pub struct CursorConfig {
    pub normal: Option<String>,
    pub insert: Option<String>,
    pub visual: Option<String>,
    pub visual_line: Option<String>,
    pub visual_block: Option<String>,
}

impl Default for CursorConfig {
    fn default() -> (r: CursorConfig)
        ensures
            r == (CursorConfig { normal: None, insert: None, visual: None, visual_line: None, visual_block: None }),
    {
        CursorConfig { normal: None, insert: None, visual: None, visual_line: None, visual_block: None }
    }
}

#[derive(Debug, Clone, Copy, PartialEq, Eq, Structural)]
pub enum CursorShape {
    Block,
    Bar,
    Underbar,
}

impl CursorShape {
    /// The digit that selects the shape.
    pub open spec fn digit(self) -> u8 {
        match self {
            CursorShape::Block => 0x32,
            CursorShape::Bar => 0x36,
            CursorShape::Underbar => 0x34,
        }
    }

    /// The terminal's escape sequence for the shape: `ESC [`, a digit, a space
    /// and `q`.
    pub fn ansi(self) -> (r: [u8; 5])
        ensures
            r@ == seq![0x1bu8, 0x5bu8, self.digit(), 0x20u8, 0x71u8],
    {
        let r = match self {
            CursorShape::Block => [0x1b, 0x5b, 0x32, 0x20, 0x71],
            CursorShape::Bar => [0x1b, 0x5b, 0x36, 0x20, 0x71],
            CursorShape::Underbar => [0x1b, 0x5b, 0x34, 0x20, 0x71],
        };
        proof {
            assert(r@ =~= seq![0x1bu8, 0x5bu8, self.digit(), 0x20u8, 0x71u8]);
        }
        r
    }
}

/// The shape for each mode.
#[derive(Debug, Clone, Copy, PartialEq, Eq, Structural)]
pub struct CursorShapes {
    pub normal: CursorShape,
    pub insert: CursorShape,
    pub visual: CursorShape,
    pub visual_line: CursorShape,
    pub visual_block: CursorShape,
}

impl CursorShapes {
    pub open spec fn spec_default() -> CursorShapes {
        CursorShapes {
            normal: CursorShape::Block,
            insert: CursorShape::Bar,
            visual: CursorShape::Underbar,
            visual_line: CursorShape::Underbar,
            visual_block: CursorShape::Underbar,
        }
    }

    /// The shape for a mode.
    pub fn for_mode(&self, mode: Mode) -> (r: CursorShape)
        ensures
            r == match mode {
                Mode::Normal => self.normal,
                Mode::Insert => self.insert,
                Mode::Visual => self.visual,
                Mode::VisualLine => self.visual_line,
                Mode::VisualBlock => self.visual_block,
            },
    {
        match mode {
            Mode::Normal => self.normal,
            Mode::Insert => self.insert,
            Mode::Visual => self.visual,
            Mode::VisualLine => self.visual_line,
            Mode::VisualBlock => self.visual_block,
        }
    }
}

impl Default for CursorShapes {
    fn default() -> (r: CursorShapes)
        ensures
            r == CursorShapes::spec_default(),
    {
        CursorShapes {
            normal: CursorShape::Block,
            insert: CursorShape::Bar,
            visual: CursorShape::Underbar,
            visual_line: CursorShape::Underbar,
            visual_block: CursorShape::Underbar,
        }
    }
}

/// A shape name that is not known, and the mode it was given for.
#[derive(Debug)]
pub struct ShapeError {
    pub mode: Mode,
    pub shape: String,
}

/// The name of a mode's entry.
pub open spec fn entry_name(mode: Mode) -> Seq<char> {
    match mode {
        Mode::Normal => "cursor.normal"@,
        Mode::Insert => "cursor.insert"@,
        Mode::Visual => "cursor.visual"@,
        Mode::VisualLine => "cursor.visual_line"@,
        Mode::VisualBlock => "cursor.visual_block"@,
    }
}

impl ShapeError {
    /// The error in words.
    pub fn message(&self) -> (r: String)
        ensures
            r@ == entry_name(self.mode) + ": unknown cursor shape `"@ + self.shape@
                + "` (expected block|bar|underbar)"@,
    {
        let mut s = String::new();
        let entry = match self.mode {
            Mode::Normal => "cursor.normal",
            Mode::Insert => "cursor.insert",
            Mode::Visual => "cursor.visual",
            Mode::VisualLine => "cursor.visual_line",
            Mode::VisualBlock => "cursor.visual_block",
        };
        push_str(&mut s, entry);
        push_str(&mut s, ": unknown cursor shape `");
        push_str(&mut s, self.shape.as_str());
        push_str(&mut s, "` (expected block|bar|underbar)");
        proof {
            assert(s@ =~= entry_name(self.mode) + ": unknown cursor shape `"@ + self.shape@
                + "` (expected block|bar|underbar)"@);
        }
        s
    }
}

/// The shape of a name. Case does not count.
pub open spec fn shape_named(name: Seq<char>) -> Option<CursorShape> {
    let n = lower_text(name);
    if n == "block"@ {
        Some(CursorShape::Block)
    } else if n == "bar"@ || n == "line"@ {
        Some(CursorShape::Bar)
    } else if n == "underbar"@ || n == "underscore"@ || n == "underline"@ {
        Some(CursorShape::Underbar)
    } else {
        None
    }
}

/// The shape of a name; an unknown name comes back in lower case.
pub fn parse_cursor_shape(s: &str) -> (r: Result<CursorShape, String>)
    ensures
        match r {
            Ok(shape) => shape_named(s@) == Some(shape),
            Err(e) => shape_named(s@) is None && e@ == lower_text(s@),
        },
{
    let lower = to_lower_text(s);
    let cs = chars_of(lower.as_str());
    if spells(&cs, "block") {
        Ok(CursorShape::Block)
    } else if spells(&cs, "bar") || spells(&cs, "line") {
        Ok(CursorShape::Bar)
    } else if spells(&cs, "underbar") || spells(&cs, "underscore") || spells(&cs, "underline") {
        Ok(CursorShape::Underbar)
    } else {
        Err(lower)
    }
}

/// The shape of an entry: the default where there is none, `None` where its
/// name is not known.
pub open spec fn entry_shape(e: Option<String>, default: CursorShape) -> Option<CursorShape> {
    match e {
        None => Some(default),
        Some(s) => shape_named(s@),
    }
}

impl CursorConfig {
    pub open spec fn entry(self, mode: Mode) -> Option<String> {
        match mode {
            Mode::Normal => self.normal,
            Mode::Insert => self.insert,
            Mode::Visual => self.visual,
            Mode::VisualLine => self.visual_line,
            Mode::VisualBlock => self.visual_block,
        }
    }

    pub open spec fn good(self, mode: Mode) -> bool {
        self.entry(mode) matches Some(s) ==> shape_named(s@) is Some
    }
}

/// Modes in the order in which their entries are read.
pub open spec fn rank(mode: Mode) -> int {
    match mode {
        Mode::Normal => 0,
        Mode::Insert => 1,
        Mode::Visual => 2,
        Mode::VisualLine => 3,
        Mode::VisualBlock => 4,
    }
}

fn pick(e: &Option<String>, default: CursorShape, mode: Mode) -> (r: Result<CursorShape, ShapeError>)
    ensures
        match r {
            Ok(s) => entry_shape(*e, default) == Some(s),
            Err(x) => entry_shape(*e, default) is None && x.mode == mode && *e is Some && x.shape@ == lower_text(
                (*e)->0@,
            ),
        },
{
    match e {
        None => Ok(default),
        Some(s) => match parse_cursor_shape(s.as_str()) {
            Ok(shape) => Ok(shape),
            Err(shape) => Err(ShapeError { mode, shape }),
        },
    }
}

/// The shapes that a configuration asks for, with the defaults where it says
/// nothing. The first entry with an unknown name is reported.
pub fn resolve_cursor_shapes(c: &CursorConfig) -> (r: Result<CursorShapes, ShapeError>)
    ensures
        match r {
            Ok(s) => {
                let d = CursorShapes::spec_default();
                &&& entry_shape(c.normal, d.normal) == Some(s.normal)
                &&& entry_shape(c.insert, d.insert) == Some(s.insert)
                &&& entry_shape(c.visual, d.visual) == Some(s.visual)
                &&& entry_shape(c.visual_line, d.visual_line) == Some(s.visual_line)
                &&& entry_shape(c.visual_block, d.visual_block) == Some(s.visual_block)
            },
            Err(e) => {
                &&& !c.good(e.mode)
                &&& e.shape@ == lower_text(c.entry(e.mode)->0@)
                &&& forall|m: Mode| rank(m) < rank(e.mode) ==> c.good(m)
            },
        },
{
    let d = CursorShapes::default();
    let normal = match pick(&c.normal, d.normal, Mode::Normal) {
        Ok(s) => s,
        Err(e) => return Err(e),
    };
    let insert = match pick(&c.insert, d.insert, Mode::Insert) {
        Ok(s) => s,
        Err(e) => return Err(e),
    };
    let visual = match pick(&c.visual, d.visual, Mode::Visual) {
        Ok(s) => s,
        Err(e) => return Err(e),
    };
    let visual_line = match pick(&c.visual_line, d.visual_line, Mode::VisualLine) {
        Ok(s) => s,
        Err(e) => return Err(e),
    };
    let visual_block = match pick(&c.visual_block, d.visual_block, Mode::VisualBlock) {
        Ok(s) => s,
        Err(e) => return Err(e),
    };
    Ok(CursorShapes { normal, insert, visual, visual_line, visual_block })
}

} // verus!
