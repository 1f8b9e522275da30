use augmentor::paths::{
    can_scale, component_can_scale, decimal, is_png_extension, parse_dimensions, parse_u32,
    path_can_scale, same_path, scale_component, scale_dir_dimensions, scale_path,
    ConversionFormat, ScaleDirection,
};

fn path(components: &[&str]) -> Vec<String> {
    components.iter().map(|component| component.to_string()).collect()
}

#[test]
fn parse_u32_agrees_with_the_standard_parser() {
    for text in [
        "", "0", "7", "007", "42", "+42", "+", "-1", "-0", "4294967295", "4294967296",
        "99999999999999999999", "1_000", " 1", "1 ", "1x", "x", "٣", "１", "+-1", "++1", "0x10",
        "00000000000000000000001",
    ] {
        assert_eq!(parse_u32(text), text.parse::<u32>().ok());
    }
    assert_eq!(parse_u32("4294967295"), Some(u32::MAX));
    assert_eq!(parse_u32("+16"), Some(16));
    assert_eq!(parse_u32("4294967296"), None);
}

#[test]
fn decimal_agrees_with_the_standard_formatter() {
    for n in [0u32, 1, 9, 10, 11, 99, 100, 12345, 1_000_000, u32::MAX - 1, u32::MAX] {
        assert_eq!(decimal(n), n.to_string());
    }
    assert_eq!(decimal(0), "0");
    assert_eq!(decimal(4294967295), "4294967295");
}

#[test]
fn dimensions_are_read_round_the_first_x() {
    assert_eq!(parse_dimensions("16x16"), Some((16, 16)));
    assert_eq!(parse_dimensions("32x64"), Some((32, 64)));
    assert_eq!(parse_dimensions("+1x007"), Some((1, 7)));
    assert_eq!(parse_dimensions("0x0"), Some((0, 0)));
    assert_eq!(parse_dimensions("16x16x16"), None);
    assert_eq!(parse_dimensions("16X16"), None);
    assert_eq!(parse_dimensions("x16"), None);
    assert_eq!(parse_dimensions("16x"), None);
    assert_eq!(parse_dimensions("x"), None);
    assert_eq!(parse_dimensions(""), None);
    assert_eq!(parse_dimensions("stone.png"), None);
    assert_eq!(parse_dimensions("textures"), None);
    assert_eq!(parse_dimensions("4294967296x1"), None);
    assert_eq!(parse_dimensions("ąx1"), None);
    assert_eq!(parse_dimensions("1ą2x3"), None);
}

#[test]
fn components_are_scaled_up_and_down() {
    assert_eq!(scale_component("16x16", 2, ScaleDirection::Up), "32x32");
    assert_eq!(scale_component("32x64", 2, ScaleDirection::Down), "16x32");
    assert_eq!(scale_component("5x7", 2, ScaleDirection::Down), "2x3");
    assert_eq!(scale_component("+1x007", 3, ScaleDirection::Up), "3x21");
    assert_eq!(scale_component("16x16", 0, ScaleDirection::Up), "0x0");
    assert_eq!(scale_component("1x1", 4, ScaleDirection::Down), "0x0");
    assert_eq!(scale_component("65535x1", 65537, ScaleDirection::Up), "4294967295x65537");
}

#[test]
fn other_components_are_copied() {
    assert_eq!(scale_component("stone.png", 2, ScaleDirection::Up), "stone.png");
    assert_eq!(scale_component("16x16x16", 2, ScaleDirection::Up), "16x16x16");
    assert_eq!(scale_component("", 2, ScaleDirection::Down), "");
    assert_eq!(scale_component("textures", 0, ScaleDirection::Down), "textures");
}

#[test]
fn scaling_is_refused_where_it_would_fail() {
    assert!(component_can_scale("16x16", 2, ScaleDirection::Up));
    assert!(component_can_scale("16x16", 2, ScaleDirection::Down));
    assert!(!component_can_scale("16x16", 0, ScaleDirection::Down));
    assert!(component_can_scale("stone.png", 0, ScaleDirection::Down));
    assert!(component_can_scale("65535x1", 65537, ScaleDirection::Up));
    assert!(!component_can_scale("65536x1", 65536, ScaleDirection::Up));
    assert!(!component_can_scale("1x65536", 65536, ScaleDirection::Up));
    assert!(component_can_scale("4294967295x1", 1, ScaleDirection::Up));
    assert!(!component_can_scale("4294967295x1", 2, ScaleDirection::Up));
    assert!(path_can_scale(&path(&["a", "16x16", "b.png"]), 2, ScaleDirection::Up));
    assert!(!path_can_scale(&path(&["a", "16x16", "b.png"]), 0, ScaleDirection::Down));
    assert!(can_scale(&vec![path(&["a"]), path(&["2x2"])], 2, ScaleDirection::Down));
    assert!(!can_scale(&vec![path(&["a"]), path(&["2x2"])], 0, ScaleDirection::Down));
    assert!(can_scale(&Vec::new(), 0, ScaleDirection::Down));
}

#[test]
fn paths_are_scaled_component_by_component() {
    assert_eq!(
        scale_path(&path(&["assets", "16x16", "blocks", "8x4", "stone.png"]), 2, ScaleDirection::Up),
        path(&["assets", "32x32", "blocks", "16x8", "stone.png"])
    );
    assert_eq!(scale_path(&path(&[]), 2, ScaleDirection::Up), path(&[]));
}

#[test]
fn same_path_compares_components() {
    assert!(same_path(&path(&["a", "b"]), &path(&["a", "b"])));
    assert!(!same_path(&path(&["a", "b"]), &path(&["a", "c"])));
    assert!(!same_path(&path(&["a", "b"]), &path(&["a"])));
    assert!(!same_path(&path(&["ab"]), &path(&["a", "b"])));
    assert!(same_path(&path(&[]), &path(&[])));
}

#[test]
fn sets_are_scaled_and_stay_sets() {
    let paths = vec![
        path(&["16x16", "stone.png"]),
        path(&["32x32", "stone.png"]),
        path(&["16x16", "dirt.png"]),
    ];
    assert_eq!(
        scale_dir_dimensions(paths, 2, ScaleDirection::Up),
        vec![
            path(&["32x32", "stone.png"]),
            path(&["64x64", "stone.png"]),
            path(&["32x32", "dirt.png"]),
        ]
    );
    let paths = vec![
        path(&["16x16", "stone.png"]),
        path(&["17x17", "stone.png"]),
        path(&["16x16", "dirt.png"]),
        path(&["017x16", "stone.png"]),
    ];
    assert_eq!(
        scale_dir_dimensions(paths, 2, ScaleDirection::Down),
        vec![path(&["8x8", "stone.png"]), path(&["8x8", "dirt.png"])]
    );
    assert_eq!(scale_dir_dimensions(Vec::new(), 2, ScaleDirection::Up), Vec::<Vec<String>>::new());
}

#[test]
fn scaling_up_and_down_pairs_the_directories() {
    let low = vec![path(&["16x16", "stone.png"]), path(&["readme.txt"])];
    let high = vec![path(&["32x32", "stone.png"]), path(&["readme.txt"])];
    assert_eq!(scale_dir_dimensions(low.clone(), 2, ScaleDirection::Up), high);
    assert_eq!(scale_dir_dimensions(high, 2, ScaleDirection::Down), low);
}

#[test]
fn png_extension_in_any_case() {
    for extension in ["png", "PNG", "Png", "pNg", "pnG"] {
        assert!(is_png_extension(extension));
    }
    for extension in ["", "pn", "pngg", "jpg", "p g", "pńg", "png ", "ＰＮＧ"] {
        assert!(!is_png_extension(extension));
    }
}

#[test]
fn conversion_format_is_rgba() {
    assert_eq!(ConversionFormat::RGBA, ConversionFormat::RGBA);
    assert!(matches!(ConversionFormat::RGBA.clone(), ConversionFormat::RGBA));
}
