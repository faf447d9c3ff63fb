use hex_logo::palette::{Builtin, Palette};

#[test]
fn builtin_colours() {
    assert_eq!(
        Builtin::LightGreen.palette(),
        Palette { foreground: "#64DD17", background: "#33691E" }
    );
    assert_eq!(
        Builtin::LightBlue.palette(),
        Palette { foreground: "#00B0FF", background: "#01579B" }
    );
    assert_eq!(
        Builtin::Purple.palette(),
        Palette { foreground: "#EA80FC", background: "#4A148C" }
    );
    assert_eq!(
        Builtin::Yellow.palette(),
        Palette { foreground: "#FFEA00", background: "#F57F17" }
    );
    assert_eq!(
        Builtin::DeepOrange.palette(),
        Palette { foreground: "#FF9E80", background: "#BF360C" }
    );
}

#[test]
fn builtin_file_prefixes() {
    assert_eq!(Builtin::LightGreen.file_prefix(), Some("decision-toolkit"));
    assert_eq!(Builtin::LightBlue.file_prefix(), Some("decision-contracts"));
    assert_eq!(Builtin::Purple.file_prefix(), Some("decision-dmn-toolkit"));
    assert_eq!(Builtin::DeepOrange.file_prefix(), Some("decision-tables"));
    assert_eq!(Builtin::Yellow.file_prefix(), None);
}
