//! The kinds of extrusion that a slicer marks in its G-code comments.
use vstd::prelude::*;
use crate::text::{chars_of, eq_str};

verus! {

/// The role of a printed path, as named in `;TYPE:` comments.
#[derive(Debug, Clone, Copy, PartialEq, Eq, Structural)]
pub enum PrintType {
    InternalInfill,
    SolidInfill,
    Skin,
    BridgeInfill,
    TopSolidInfill,
    Skirt,
    Brim,
    Support,
    Perimeter,
    ExternalPerimeter,
    OverhangPerimeter,
    WallOuter,
    WallInner,
    Unknown,
}

/// The name of each variant, which is also the text that names it when parsing.
pub open spec fn print_type_name(t: PrintType) -> Seq<char> {
    match t {
        PrintType::InternalInfill => "InternalInfill"@,
        PrintType::SolidInfill => "SolidInfill"@,
        PrintType::Skin => "Skin"@,
        PrintType::BridgeInfill => "BridgeInfill"@,
        PrintType::TopSolidInfill => "TopSolidInfill"@,
        PrintType::Skirt => "Skirt"@,
        PrintType::Brim => "Brim"@,
        PrintType::Support => "Support"@,
        PrintType::Perimeter => "Perimeter"@,
        PrintType::ExternalPerimeter => "ExternalPerimeter"@,
        PrintType::OverhangPerimeter => "OverhangPerimeter"@,
        PrintType::WallOuter => "WallOuter"@,
        PrintType::WallInner => "WallInner"@,
        PrintType::Unknown => "Unknown"@,
    }
}

/// Parsing a print type: the variant whose name is exactly `s`.
pub open spec fn print_type_from_name(s: Seq<char>) -> Option<PrintType> {
    if s == "InternalInfill"@ {
        Some(PrintType::InternalInfill)
    } else if s == "SolidInfill"@ {
        Some(PrintType::SolidInfill)
    } else if s == "Skin"@ {
        Some(PrintType::Skin)
    } else if s == "BridgeInfill"@ {
        Some(PrintType::BridgeInfill)
    } else if s == "TopSolidInfill"@ {
        Some(PrintType::TopSolidInfill)
    } else if s == "Skirt"@ {
        Some(PrintType::Skirt)
    } else if s == "Brim"@ {
        Some(PrintType::Brim)
    } else if s == "Support"@ {
        Some(PrintType::Support)
    } else if s == "Perimeter"@ {
        Some(PrintType::Perimeter)
    } else if s == "ExternalPerimeter"@ {
        Some(PrintType::ExternalPerimeter)
    } else if s == "OverhangPerimeter"@ {
        Some(PrintType::OverhangPerimeter)
    } else if s == "WallOuter"@ {
        Some(PrintType::WallOuter)
    } else if s == "WallInner"@ {
        Some(PrintType::WallInner)
    } else if s == "Unknown"@ {
        Some(PrintType::Unknown)
    } else {
        None
    }
}

/// The display color of each print type, as red, green, blue and alpha in `0..=255`; each
/// print type has a color of its own.
pub open spec fn print_type_rgba(t: PrintType) -> [u8; 4] {
    match t {
        PrintType::InternalInfill => [0, 0, 255, 255],
        PrintType::SolidInfill => [0, 255, 0, 255],
        PrintType::Skin => [0, 130, 0, 255],
        PrintType::BridgeInfill => [255, 0, 0, 255],
        PrintType::TopSolidInfill => [130, 130, 0, 255],
        PrintType::Skirt => [255, 0, 255, 255],
        PrintType::Brim => [0, 255, 255, 255],
        PrintType::Support => [255, 255, 255, 255],
        PrintType::Perimeter => [130, 0, 130, 255],
        PrintType::WallOuter => [255, 130, 0, 255],
        PrintType::WallInner => [130, 0, 0, 255],
        PrintType::ExternalPerimeter => [255, 255, 0, 255],
        PrintType::OverhangPerimeter => [0, 130, 130, 255],
        PrintType::Unknown => [0, 0, 0, 255],
    }
}

impl PrintType {
    /// The number of variants.
    pub const COUNT: usize = 14;

    /// The variant's name.
    pub fn name(&self) -> (r: &'static str)
        ensures
            r@ == print_type_name(*self),
    {
        match self {
            PrintType::InternalInfill => "InternalInfill",
            PrintType::SolidInfill => "SolidInfill",
            PrintType::Skin => "Skin",
            PrintType::BridgeInfill => "BridgeInfill",
            PrintType::TopSolidInfill => "TopSolidInfill",
            PrintType::Skirt => "Skirt",
            PrintType::Brim => "Brim",
            PrintType::Support => "Support",
            PrintType::Perimeter => "Perimeter",
            PrintType::ExternalPerimeter => "ExternalPerimeter",
            PrintType::OverhangPerimeter => "OverhangPerimeter",
            PrintType::WallOuter => "WallOuter",
            PrintType::WallInner => "WallInner",
            PrintType::Unknown => "Unknown",
        }
    }

    /// The variant whose name is exactly the characters of `s`.
    pub fn from_chars(s: &Vec<char>) -> (r: Option<PrintType>)
        ensures
            r == print_type_from_name(s@),
    {
        if eq_str(s, "InternalInfill") {
            Some(PrintType::InternalInfill)
        } else if eq_str(s, "SolidInfill") {
            Some(PrintType::SolidInfill)
        } else if eq_str(s, "Skin") {
            Some(PrintType::Skin)
        } else if eq_str(s, "BridgeInfill") {
            Some(PrintType::BridgeInfill)
        } else if eq_str(s, "TopSolidInfill") {
            Some(PrintType::TopSolidInfill)
        } else if eq_str(s, "Skirt") {
            Some(PrintType::Skirt)
        } else if eq_str(s, "Brim") {
            Some(PrintType::Brim)
        } else if eq_str(s, "Support") {
            Some(PrintType::Support)
        } else if eq_str(s, "Perimeter") {
            Some(PrintType::Perimeter)
        } else if eq_str(s, "ExternalPerimeter") {
            Some(PrintType::ExternalPerimeter)
        } else if eq_str(s, "OverhangPerimeter") {
            Some(PrintType::OverhangPerimeter)
        } else if eq_str(s, "WallOuter") {
            Some(PrintType::WallOuter)
        } else if eq_str(s, "WallInner") {
            Some(PrintType::WallInner)
        } else if eq_str(s, "Unknown") {
            Some(PrintType::Unknown)
        } else {
            None
        }
    }

    /// The variant named `s` (`str::parse::<PrintType>`).
    pub fn from_name(s: &str) -> (r: Option<PrintType>)
        ensures
            r == print_type_from_name(s@),
    {
        let v = chars_of(s);
        PrintType::from_chars(&v)
    }

    /// The display color, as red, green, blue and alpha in `0..=255`.
    pub fn rgba(&self) -> (r: [u8; 4])
        ensures
            r == print_type_rgba(*self),
    {
        match self {
            PrintType::InternalInfill => [0, 0, 255, 255],
            PrintType::SolidInfill => [0, 255, 0, 255],
            PrintType::Skin => [0, 130, 0, 255],
            PrintType::BridgeInfill => [255, 0, 0, 255],
            PrintType::TopSolidInfill => [130, 130, 0, 255],
            PrintType::Skirt => [255, 0, 255, 255],
            PrintType::Brim => [0, 255, 255, 255],
            PrintType::Support => [255, 255, 255, 255],
            PrintType::Perimeter => [130, 0, 130, 255],
            PrintType::WallOuter => [255, 130, 0, 255],
            PrintType::WallInner => [130, 0, 0, 255],
            PrintType::ExternalPerimeter => [255, 255, 0, 255],
            PrintType::OverhangPerimeter => [0, 130, 130, 255],
            PrintType::Unknown => [0, 0, 0, 255],
        }
    }
}

/// Law: every print type is read back from its own name.
pub proof fn law_print_type_name_round_trip(t: PrintType)
    ensures
        print_type_from_name(print_type_name(t)) == Some(t),
{
    reveal_strlit("InternalInfill");
    reveal_strlit("SolidInfill");
    reveal_strlit("Skin");
    reveal_strlit("BridgeInfill");
    reveal_strlit("TopSolidInfill");
    reveal_strlit("Skirt");
    reveal_strlit("Brim");
    reveal_strlit("Support");
    reveal_strlit("Perimeter");
    reveal_strlit("ExternalPerimeter");
    reveal_strlit("OverhangPerimeter");
    reveal_strlit("WallOuter");
    reveal_strlit("WallInner");
    reveal_strlit("Unknown");
    match t {
        PrintType::InternalInfill => {

        },
        PrintType::SolidInfill => {
            assert("SolidInfill"@.len() != "InternalInfill"@.len());
        },
        PrintType::Skin => {
            assert("Skin"@.len() != "InternalInfill"@.len());
            assert("Skin"@.len() != "SolidInfill"@.len());
        },
        PrintType::BridgeInfill => {
            assert("BridgeInfill"@.len() != "InternalInfill"@.len());
            assert("BridgeInfill"@.len() != "SolidInfill"@.len());
            assert("BridgeInfill"@.len() != "Skin"@.len());
        },
        PrintType::TopSolidInfill => {
            assert("TopSolidInfill"@[0] != "InternalInfill"@[0]);
            assert("TopSolidInfill"@.len() != "SolidInfill"@.len());
            assert("TopSolidInfill"@.len() != "Skin"@.len());
            assert("TopSolidInfill"@.len() != "BridgeInfill"@.len());
        },
        PrintType::Skirt => {
            assert("Skirt"@.len() != "InternalInfill"@.len());
            assert("Skirt"@.len() != "SolidInfill"@.len());
            assert("Skirt"@.len() != "Skin"@.len());
            assert("Skirt"@.len() != "BridgeInfill"@.len());
            assert("Skirt"@.len() != "TopSolidInfill"@.len());
        },
        PrintType::Brim => {
            assert("Brim"@.len() != "InternalInfill"@.len());
            assert("Brim"@.len() != "SolidInfill"@.len());
            assert("Brim"@[0] != "Skin"@[0]);
            assert("Brim"@.len() != "BridgeInfill"@.len());
            assert("Brim"@.len() != "TopSolidInfill"@.len());
            assert("Brim"@.len() != "Skirt"@.len());
        },
        PrintType::Support => {
            assert("Support"@.len() != "InternalInfill"@.len());
            assert("Support"@.len() != "SolidInfill"@.len());
            assert("Support"@.len() != "Skin"@.len());
            assert("Support"@.len() != "BridgeInfill"@.len());
            assert("Support"@.len() != "TopSolidInfill"@.len());
            assert("Support"@.len() != "Skirt"@.len());
            assert("Support"@.len() != "Brim"@.len());
        },
        PrintType::Perimeter => {
            assert("Perimeter"@.len() != "InternalInfill"@.len());
            assert("Perimeter"@.len() != "SolidInfill"@.len());
            assert("Perimeter"@.len() != "Skin"@.len());
            assert("Perimeter"@.len() != "BridgeInfill"@.len());
            assert("Perimeter"@.len() != "TopSolidInfill"@.len());
            assert("Perimeter"@.len() != "Skirt"@.len());
            assert("Perimeter"@.len() != "Brim"@.len());
            assert("Perimeter"@.len() != "Support"@.len());
        },
        PrintType::ExternalPerimeter => {
            assert("ExternalPerimeter"@.len() != "InternalInfill"@.len());
            assert("ExternalPerimeter"@.len() != "SolidInfill"@.len());
            assert("ExternalPerimeter"@.len() != "Skin"@.len());
            assert("ExternalPerimeter"@.len() != "BridgeInfill"@.len());
            assert("ExternalPerimeter"@.len() != "TopSolidInfill"@.len());
            assert("ExternalPerimeter"@.len() != "Skirt"@.len());
            assert("ExternalPerimeter"@.len() != "Brim"@.len());
            assert("ExternalPerimeter"@.len() != "Support"@.len());
            assert("ExternalPerimeter"@.len() != "Perimeter"@.len());
        },
        PrintType::OverhangPerimeter => {
            assert("OverhangPerimeter"@.len() != "InternalInfill"@.len());
            assert("OverhangPerimeter"@.len() != "SolidInfill"@.len());
            assert("OverhangPerimeter"@.len() != "Skin"@.len());
            assert("OverhangPerimeter"@.len() != "BridgeInfill"@.len());
            assert("OverhangPerimeter"@.len() != "TopSolidInfill"@.len());
            assert("OverhangPerimeter"@.len() != "Skirt"@.len());
            assert("OverhangPerimeter"@.len() != "Brim"@.len());
            assert("OverhangPerimeter"@.len() != "Support"@.len());
            assert("OverhangPerimeter"@.len() != "Perimeter"@.len());
            assert("OverhangPerimeter"@[0] != "ExternalPerimeter"@[0]);
        },
        PrintType::WallOuter => {
            assert("WallOuter"@.len() != "InternalInfill"@.len());
            assert("WallOuter"@.len() != "SolidInfill"@.len());
            assert("WallOuter"@.len() != "Skin"@.len());
            assert("WallOuter"@.len() != "BridgeInfill"@.len());
            assert("WallOuter"@.len() != "TopSolidInfill"@.len());
            assert("WallOuter"@.len() != "Skirt"@.len());
            assert("WallOuter"@.len() != "Brim"@.len());
            assert("WallOuter"@.len() != "Support"@.len());
            assert("WallOuter"@[0] != "Perimeter"@[0]);
            assert("WallOuter"@.len() != "ExternalPerimeter"@.len());
            assert("WallOuter"@.len() != "OverhangPerimeter"@.len());
        },
        PrintType::WallInner => {
            assert("WallInner"@.len() != "InternalInfill"@.len());
            assert("WallInner"@.len() != "SolidInfill"@.len());
            assert("WallInner"@.len() != "Skin"@.len());
            assert("WallInner"@.len() != "BridgeInfill"@.len());
            assert("WallInner"@.len() != "TopSolidInfill"@.len());
            assert("WallInner"@.len() != "Skirt"@.len());
            assert("WallInner"@.len() != "Brim"@.len());
            assert("WallInner"@.len() != "Support"@.len());
            assert("WallInner"@[0] != "Perimeter"@[0]);
            assert("WallInner"@.len() != "ExternalPerimeter"@.len());
            assert("WallInner"@.len() != "OverhangPerimeter"@.len());
            assert("WallInner"@[4] != "WallOuter"@[4]);
        },
        PrintType::Unknown => {
            assert("Unknown"@.len() != "InternalInfill"@.len());
            assert("Unknown"@.len() != "SolidInfill"@.len());
            assert("Unknown"@.len() != "Skin"@.len());
            assert("Unknown"@.len() != "BridgeInfill"@.len());
            assert("Unknown"@.len() != "TopSolidInfill"@.len());
            assert("Unknown"@.len() != "Skirt"@.len());
            assert("Unknown"@.len() != "Brim"@.len());
            assert("Unknown"@[0] != "Support"@[0]);
            assert("Unknown"@.len() != "Perimeter"@.len());
            assert("Unknown"@.len() != "ExternalPerimeter"@.len());
            assert("Unknown"@.len() != "OverhangPerimeter"@.len());
            assert("Unknown"@.len() != "WallOuter"@.len());
            assert("Unknown"@.len() != "WallInner"@.len());
        },
    }
}

/// Law: each print type has a color of its own: no two print types share one.
pub proof fn law_print_type_colors_distinct(a: PrintType, b: PrintType)
    requires
        a != b,
    ensures
        print_type_rgba(a) != print_type_rgba(b),
{
    assert(print_type_rgba(a)[0] != print_type_rgba(b)[0] || print_type_rgba(a)[1] != print_type_rgba(b)[1]
        || print_type_rgba(a)[2] != print_type_rgba(b)[2]);
}

/// Law: each print type is named by the text of its variant, as `IntoStaticStr` names it,
/// and is read from exactly that text, as `EnumString` reads it.
pub proof fn law_print_type_names()
    ensures
        print_type_name(PrintType::InternalInfill) == "InternalInfill"@,
        print_type_name(PrintType::SolidInfill) == "SolidInfill"@,
        print_type_name(PrintType::Skin) == "Skin"@,
        print_type_name(PrintType::BridgeInfill) == "BridgeInfill"@,
        print_type_name(PrintType::TopSolidInfill) == "TopSolidInfill"@,
        print_type_name(PrintType::Skirt) == "Skirt"@,
        print_type_name(PrintType::Brim) == "Brim"@,
        print_type_name(PrintType::Support) == "Support"@,
        print_type_name(PrintType::Perimeter) == "Perimeter"@,
        print_type_name(PrintType::ExternalPerimeter) == "ExternalPerimeter"@,
        print_type_name(PrintType::OverhangPerimeter) == "OverhangPerimeter"@,
        print_type_name(PrintType::WallOuter) == "WallOuter"@,
        print_type_name(PrintType::WallInner) == "WallInner"@,
        print_type_name(PrintType::Unknown) == "Unknown"@,
        print_type_from_name("InternalInfill"@) == Some(PrintType::InternalInfill),
        print_type_from_name("SolidInfill"@) == Some(PrintType::SolidInfill),
        print_type_from_name("Skin"@) == Some(PrintType::Skin),
        print_type_from_name("BridgeInfill"@) == Some(PrintType::BridgeInfill),
        print_type_from_name("TopSolidInfill"@) == Some(PrintType::TopSolidInfill),
        print_type_from_name("Skirt"@) == Some(PrintType::Skirt),
        print_type_from_name("Brim"@) == Some(PrintType::Brim),
        print_type_from_name("Support"@) == Some(PrintType::Support),
        print_type_from_name("Perimeter"@) == Some(PrintType::Perimeter),
        print_type_from_name("ExternalPerimeter"@) == Some(PrintType::ExternalPerimeter),
        print_type_from_name("OverhangPerimeter"@) == Some(PrintType::OverhangPerimeter),
        print_type_from_name("WallOuter"@) == Some(PrintType::WallOuter),
        print_type_from_name("WallInner"@) == Some(PrintType::WallInner),
        print_type_from_name("Unknown"@) == Some(PrintType::Unknown),
{
    law_print_type_name_round_trip(PrintType::InternalInfill);
    law_print_type_name_round_trip(PrintType::SolidInfill);
    law_print_type_name_round_trip(PrintType::Skin);
    law_print_type_name_round_trip(PrintType::BridgeInfill);
    law_print_type_name_round_trip(PrintType::TopSolidInfill);
    law_print_type_name_round_trip(PrintType::Skirt);
    law_print_type_name_round_trip(PrintType::Brim);
    law_print_type_name_round_trip(PrintType::Support);
    law_print_type_name_round_trip(PrintType::Perimeter);
    law_print_type_name_round_trip(PrintType::ExternalPerimeter);
    law_print_type_name_round_trip(PrintType::OverhangPerimeter);
    law_print_type_name_round_trip(PrintType::WallOuter);
    law_print_type_name_round_trip(PrintType::WallInner);
    law_print_type_name_round_trip(PrintType::Unknown);
}

/// Law: a text is read as a print type only where it is that print type's name.
pub proof fn law_print_type_read_only_by_name(s: Seq<char>)
    ensures
        print_type_from_name(s) matches Some(t) ==> s == print_type_name(t),
{
}

} // verus!
