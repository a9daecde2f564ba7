use vstd::prelude::*;
use crate::error::VmError;

verus! {

/// The 20 colors of the Piet palette: 18 chromatic (6 hues x 3 lightnesses)
/// plus White and Black.
#[derive(Debug, Clone, Copy, PartialEq, Eq, Structural, Hash)]
pub enum PietColor {
    LightRed,
    Red,
    DarkRed,
    LightYellow,
    Yellow,
    DarkYellow,
    LightGreen,
    Green,
    DarkGreen,
    LightCyan,
    Cyan,
    DarkCyan,
    LightBlue,
    Blue,
    DarkBlue,
    LightMagenta,
    Magenta,
    DarkMagenta,
    White,
    Black,
}

impl PietColor {
    /// Hue axis of a chromatic color, in [0, 6); White and Black have none.
    pub open spec fn spec_hue(self) -> Option<u8> {
        match self {
            PietColor::LightRed | PietColor::Red | PietColor::DarkRed => Some(0u8),
            PietColor::LightYellow | PietColor::Yellow | PietColor::DarkYellow => Some(1u8),
            PietColor::LightGreen | PietColor::Green | PietColor::DarkGreen => Some(2u8),
            PietColor::LightCyan | PietColor::Cyan | PietColor::DarkCyan => Some(3u8),
            PietColor::LightBlue | PietColor::Blue | PietColor::DarkBlue => Some(4u8),
            PietColor::LightMagenta | PietColor::Magenta | PietColor::DarkMagenta => Some(5u8),
            PietColor::White | PietColor::Black => None,
        }
    }

    /// Lightness axis of a chromatic color: 0 light, 1 normal, 2 dark.
    pub open spec fn spec_lightness(self) -> Option<u8> {
        match self {
            PietColor::LightRed | PietColor::LightYellow | PietColor::LightGreen
            | PietColor::LightCyan | PietColor::LightBlue | PietColor::LightMagenta => Some(0u8),
            PietColor::Red | PietColor::Yellow | PietColor::Green
            | PietColor::Cyan | PietColor::Blue | PietColor::Magenta => Some(1u8),
            PietColor::DarkRed | PietColor::DarkYellow | PietColor::DarkGreen
            | PietColor::DarkCyan | PietColor::DarkBlue | PietColor::DarkMagenta => Some(2u8),
            PietColor::White | PietColor::Black => None,
        }
    }

    pub open spec fn is_chromatic(self) -> bool {
        self != PietColor::White && self != PietColor::Black
    }

    /// The color a canonical RGB triple maps to; every non-palette triple
    /// collapses to Black (treated as blocked).
    pub open spec fn spec_from_rgb(r: u8, g: u8, b: u8) -> PietColor {
        if r == 0xFF && g == 0xC0 && b == 0xC0 { PietColor::LightRed }
        else if r == 0xFF && g == 0x00 && b == 0x00 { PietColor::Red }
        else if r == 0xC0 && g == 0x00 && b == 0x00 { PietColor::DarkRed }
        else if r == 0xFF && g == 0xFF && b == 0xC0 { PietColor::LightYellow }
        else if r == 0xFF && g == 0xFF && b == 0x00 { PietColor::Yellow }
        else if r == 0xC0 && g == 0xC0 && b == 0x00 { PietColor::DarkYellow }
        else if r == 0xC0 && g == 0xFF && b == 0xC0 { PietColor::LightGreen }
        else if r == 0x00 && g == 0xFF && b == 0x00 { PietColor::Green }
        else if r == 0x00 && g == 0xC0 && b == 0x00 { PietColor::DarkGreen }
        else if r == 0xC0 && g == 0xFF && b == 0xFF { PietColor::LightCyan }
        else if r == 0x00 && g == 0xFF && b == 0xFF { PietColor::Cyan }
        else if r == 0x00 && g == 0xC0 && b == 0xC0 { PietColor::DarkCyan }
        else if r == 0xC0 && g == 0xC0 && b == 0xFF { PietColor::LightBlue }
        else if r == 0x00 && g == 0x00 && b == 0xFF { PietColor::Blue }
        else if r == 0x00 && g == 0x00 && b == 0xC0 { PietColor::DarkBlue }
        else if r == 0xFF && g == 0xC0 && b == 0xFF { PietColor::LightMagenta }
        else if r == 0xFF && g == 0x00 && b == 0xFF { PietColor::Magenta }
        else if r == 0xC0 && g == 0x00 && b == 0xC0 { PietColor::DarkMagenta }
        else if r == 0xFF && g == 0xFF && b == 0xFF { PietColor::White }
        else { PietColor::Black }
    }

    /// Maps an RGB triple to its palette color. Never fails: any triple
    /// outside the 20 canonical ones is read as Black.
    pub fn from_rgb(r: u8, g: u8, b: u8) -> (res: Result<Self, VmError>)
        ensures
            res == Ok::<PietColor, VmError>(Self::spec_from_rgb(r, g, b)),
    {
        if r == 0xFF && g == 0xC0 && b == 0xC0 { Ok(PietColor::LightRed) }
        else if r == 0xFF && g == 0x00 && b == 0x00 { Ok(PietColor::Red) }
        else if r == 0xC0 && g == 0x00 && b == 0x00 { Ok(PietColor::DarkRed) }
        else if r == 0xFF && g == 0xFF && b == 0xC0 { Ok(PietColor::LightYellow) }
        else if r == 0xFF && g == 0xFF && b == 0x00 { Ok(PietColor::Yellow) }
        else if r == 0xC0 && g == 0xC0 && b == 0x00 { Ok(PietColor::DarkYellow) }
        else if r == 0xC0 && g == 0xFF && b == 0xC0 { Ok(PietColor::LightGreen) }
        else if r == 0x00 && g == 0xFF && b == 0x00 { Ok(PietColor::Green) }
        else if r == 0x00 && g == 0xC0 && b == 0x00 { Ok(PietColor::DarkGreen) }
        else if r == 0xC0 && g == 0xFF && b == 0xFF { Ok(PietColor::LightCyan) }
        else if r == 0x00 && g == 0xFF && b == 0xFF { Ok(PietColor::Cyan) }
        else if r == 0x00 && g == 0xC0 && b == 0xC0 { Ok(PietColor::DarkCyan) }
        else if r == 0xC0 && g == 0xC0 && b == 0xFF { Ok(PietColor::LightBlue) }
        else if r == 0x00 && g == 0x00 && b == 0xFF { Ok(PietColor::Blue) }
        else if r == 0x00 && g == 0x00 && b == 0xC0 { Ok(PietColor::DarkBlue) }
        else if r == 0xFF && g == 0xC0 && b == 0xFF { Ok(PietColor::LightMagenta) }
        else if r == 0xFF && g == 0x00 && b == 0xFF { Ok(PietColor::Magenta) }
        else if r == 0xC0 && g == 0x00 && b == 0xC0 { Ok(PietColor::DarkMagenta) }
        else if r == 0xFF && g == 0xFF && b == 0xFF { Ok(PietColor::White) }
        else { Ok(PietColor::Black) }
    }

    /// Hue of the color (0-5), None for White/Black.
    pub fn hue(&self) -> (h: Option<u8>)
        ensures
            h == self.spec_hue(),
    {
        match self {
            PietColor::LightRed | PietColor::Red | PietColor::DarkRed => Some(0),
            PietColor::LightYellow | PietColor::Yellow | PietColor::DarkYellow => Some(1),
            PietColor::LightGreen | PietColor::Green | PietColor::DarkGreen => Some(2),
            PietColor::LightCyan | PietColor::Cyan | PietColor::DarkCyan => Some(3),
            PietColor::LightBlue | PietColor::Blue | PietColor::DarkBlue => Some(4),
            PietColor::LightMagenta | PietColor::Magenta | PietColor::DarkMagenta => Some(5),
            PietColor::White | PietColor::Black => None,
        }
    }

    /// Lightness of the color (0 light, 1 normal, 2 dark), None for White/Black.
    pub fn lightness(&self) -> (l: Option<u8>)
        ensures
            l == self.spec_lightness(),
    {
        match self {
            PietColor::LightRed | PietColor::LightYellow | PietColor::LightGreen
            | PietColor::LightCyan | PietColor::LightBlue | PietColor::LightMagenta => Some(0),
            PietColor::Red | PietColor::Yellow | PietColor::Green
            | PietColor::Cyan | PietColor::Blue | PietColor::Magenta => Some(1),
            PietColor::DarkRed | PietColor::DarkYellow | PietColor::DarkGreen
            | PietColor::DarkCyan | PietColor::DarkBlue | PietColor::DarkMagenta => Some(2),
            PietColor::White | PietColor::Black => None,
        }
    }

    pub fn is_white(&self) -> (w: bool)
        ensures
            w == (*self == PietColor::White),
    {
        matches!(self, PietColor::White)
    }

    pub fn is_black(&self) -> (b: bool)
        ensures
            b == (*self == PietColor::Black),
    {
        matches!(self, PietColor::Black)
    }
}

/// The 17 Piet operations.
#[derive(Debug, Clone, Copy, PartialEq, Eq, Structural)]
pub enum Operation {
    Push,
    Pop,
    Add,
    Subtract,
    Multiply,
    Divide,
    Mod,
    Not,
    Greater,
    Pointer,
    Switch,
    Duplicate,
    Roll,
    InNumber,
    InChar,
    OutNumber,
    OutChar,
}

impl Operation {
    /// The operation's lower-case name.
    pub open spec fn spec_name(self) -> Seq<char> {
        match self {
            Operation::Push => "push"@,
            Operation::Pop => "pop"@,
            Operation::Add => "add"@,
            Operation::Subtract => "subtract"@,
            Operation::Multiply => "multiply"@,
            Operation::Divide => "divide"@,
            Operation::Mod => "mod"@,
            Operation::Not => "not"@,
            Operation::Greater => "greater"@,
            Operation::Pointer => "pointer"@,
            Operation::Switch => "switch"@,
            Operation::Duplicate => "duplicate"@,
            Operation::Roll => "roll"@,
            Operation::InNumber => "in(number)"@,
            Operation::InChar => "in(char)"@,
            Operation::OutNumber => "out(number)"@,
            Operation::OutChar => "out(char)"@,
        }
    }

    /// The operation's lower-case name.
    pub fn name(&self) -> (r: &'static str)
        ensures
            r@ == self.spec_name(),
    {
        match self {
            Operation::Push => "push",
            Operation::Pop => "pop",
            Operation::Add => "add",
            Operation::Subtract => "subtract",
            Operation::Multiply => "multiply",
            Operation::Divide => "divide",
            Operation::Mod => "mod",
            Operation::Not => "not",
            Operation::Greater => "greater",
            Operation::Pointer => "pointer",
            Operation::Switch => "switch",
            Operation::Duplicate => "duplicate",
            Operation::Roll => "roll",
            Operation::InNumber => "in(number)",
            Operation::InChar => "in(char)",
            Operation::OutNumber => "out(number)",
            Operation::OutChar => "out(char)",
        }
    }
}

/// Piet's canonical operation table, indexed by the normalized deltas
/// (hue change in [0, 6), lightness change in [0, 3)). No change at all
/// means no operation.
pub open spec fn op_for_deltas(dh: int, dl: int) -> Option<Operation> {
    if dh == 0 {
        if dl == 0 { None }
        else if dl == 1 { Some(Operation::Push) }
        else { Some(Operation::Pop) }
    } else if dh == 1 {
        if dl == 0 { Some(Operation::Add) }
        else if dl == 1 { Some(Operation::Subtract) }
        else { Some(Operation::Multiply) }
    } else if dh == 2 {
        if dl == 0 { Some(Operation::Divide) }
        else if dl == 1 { Some(Operation::Mod) }
        else { Some(Operation::Not) }
    } else if dh == 3 {
        if dl == 0 { Some(Operation::Greater) }
        else if dl == 1 { Some(Operation::Pointer) }
        else { Some(Operation::Switch) }
    } else if dh == 4 {
        if dl == 0 { Some(Operation::Duplicate) }
        else if dl == 1 { Some(Operation::Roll) }
        else { Some(Operation::InNumber) }
    } else {
        if dl == 0 { Some(Operation::InChar) }
        else if dl == 1 { Some(Operation::OutNumber) }
        else { Some(Operation::OutChar) }
    }
}

/// Operation determined by a change of hue and lightness between two
/// chromatic colors; the changes are normalized modulo 6 and 3.
pub fn get_operation(hue_change: i8, lightness_change: i8) -> (op: Option<Operation>)
    ensures
        op == op_for_deltas(
            (hue_change as int) % 6,
            (lightness_change as int) % 3,
        ),
{
    let h: i32 = match (hue_change as i32).checked_rem_euclid(6) {
        Some(v) => v,
        None => 0,
    };
    let l: i32 = match (lightness_change as i32).checked_rem_euclid(3) {
        Some(v) => v,
        None => 0,
    };
    proof {
        let hc = hue_change as int;
        let lc = lightness_change as int;
        vstd::arithmetic::div_mod::lemma_mod_bound(hc, 6);
        vstd::arithmetic::div_mod::lemma_mod_bound(lc, 3);
    }
    match (h, l) {
        (0, 0) => None,
        (0, 1) => Some(Operation::Push),
        (0, 2) => Some(Operation::Pop),
        (1, 0) => Some(Operation::Add),
        (1, 1) => Some(Operation::Subtract),
        (1, 2) => Some(Operation::Multiply),
        (2, 0) => Some(Operation::Divide),
        (2, 1) => Some(Operation::Mod),
        (2, 2) => Some(Operation::Not),
        (3, 0) => Some(Operation::Greater),
        (3, 1) => Some(Operation::Pointer),
        (3, 2) => Some(Operation::Switch),
        (4, 0) => Some(Operation::Duplicate),
        (4, 1) => Some(Operation::Roll),
        (4, 2) => Some(Operation::InNumber),
        (5, 0) => Some(Operation::InChar),
        (5, 1) => Some(Operation::OutNumber),
        (5, 2) => Some(Operation::OutChar),
        _ => None,
    }
}

} // verus!
