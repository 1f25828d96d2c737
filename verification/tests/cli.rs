use nurbs_kernel::cli::{
    default_output_file_name, format_for_extension, method_from_name, parse_arguments,
    parse_usize, CliArgs, CliError, InputMethod, OutputFormat,
};
use nurbs_kernel::decimal::{decimal_chars, read_usize};

fn strings(args: &[&str]) -> Vec<String> {
    args.iter().map(|s| s.to_string()).collect()
}

fn with_output(path: Option<&str>) -> CliArgs {
    CliArgs {
        method: None,
        input_path: "in.toml".to_string(),
        output_path: path.map(|p| p.to_string()),
        mesh_u: 1,
        mesh_v: 1,
    }
}

#[test]
fn output_format_from_extension() {
    assert_eq!(with_output(Some("outputs/surface.vtk")).output_format(), Some(OutputFormat::Vtk));
    assert_eq!(with_output(Some("a/b/pic.PNG")).output_format(), Some(OutputFormat::Png));
    assert_eq!(with_output(Some("x.VtK")).output_format(), Some(OutputFormat::Vtk));
    assert_eq!(with_output(Some("x.obj")).output_format(), None);
    assert_eq!(with_output(Some("vtk")).output_format(), None);
    assert_eq!(with_output(Some(".vtk")).output_format(), None);
    assert_eq!(with_output(None).output_format(), None);
}

#[test]
fn output_format_of_plain_paths() {
    assert_eq!(with_output(Some("a.b.vtk")).output_format(), Some(OutputFormat::Vtk));
    assert_eq!(with_output(Some("dir.png/file")).output_format(), None);
    assert_eq!(with_output(Some("dir/..png")).output_format(), Some(OutputFormat::Png));
    assert_eq!(with_output(Some("out/name.")).output_format(), None);
}

#[test]
fn extension_formats() {
    assert_eq!(format_for_extension("vtk"), Some(OutputFormat::Vtk));
    assert_eq!(format_for_extension("PnG"), Some(OutputFormat::Png));
    assert_eq!(format_for_extension("vtkx"), None);
    assert_eq!(format_for_extension(""), None);
}

#[test]
fn method_names() {
    assert_eq!(method_from_name("direct"), Some(InputMethod::Direct));
    assert_eq!(method_from_name("interpolated"), Some(InputMethod::Interpolated));
    assert_eq!(method_from_name("Direct"), None);
}

#[test]
fn usize_reading() {
    assert_eq!(read_usize("32"), Some(32));
    assert_eq!(read_usize("+7"), Some(7));
    assert_eq!(read_usize("007"), Some(7));
    assert_eq!(read_usize("18446744073709551615"), Some(usize::MAX));
    assert_eq!(read_usize("18446744073709551616"), None);
    assert_eq!(read_usize("-1"), None);
    assert_eq!(read_usize("+"), None);
    assert_eq!(read_usize(""), None);
    assert_eq!(read_usize(" 4"), None);
    assert_eq!(read_usize("4x"), None);
    assert_eq!(parse_usize("64", "mesh_u"), 64);
}

#[test]
fn decimal_digits() {
    assert_eq!(decimal_chars(0), vec!['0']);
    assert_eq!(decimal_chars(1700000000), "1700000000".chars().collect::<Vec<char>>());
    assert_eq!(default_output_file_name(42), "surface_42.vtk");
}

#[test]
fn arguments_with_defaults() {
    let parsed = parse_arguments(&strings(&[]), "out/default.vtk".to_string()).ok().unwrap();
    assert_eq!(parsed.method, None);
    assert_eq!(parsed.input_path, "inputs/examples/default_script.toml");
    assert_eq!(parsed.output_path, Some("out/default.vtk".to_string()));
    assert_eq!(parsed.mesh_u, 32);
    assert_eq!(parsed.mesh_v, 32);
}

#[test]
fn arguments_given() {
    let parsed = parse_arguments(
        &strings(&["interpolated", "in.toml", "out.png", "64", "48", "extra"]),
        "unused.vtk".to_string(),
    )
    .ok()
    .unwrap();
    assert_eq!(parsed.method, Some(InputMethod::Interpolated));
    assert_eq!(parsed.input_path, "in.toml");
    assert_eq!(parsed.output_path, Some("out.png".to_string()));
    assert_eq!(parsed.mesh_u, 64);
    assert_eq!(parsed.mesh_v, 48);
}

#[test]
fn unknown_method_argument() {
    match parse_arguments(&strings(&["bezier", "x", "y", "zz"]), String::new()) {
        Err(CliError::UnknownMethod(m)) => assert_eq!(m, "bezier"),
        _ => panic!("expected an unknown method"),
    }
}

#[test]
fn invalid_grid_sizes() {
    match parse_arguments(&strings(&["direct", "a", "b", "x", "y"]), String::new()) {
        Err(CliError::InvalidNumber { name, text }) => {
            assert_eq!(name, "mesh_u");
            assert_eq!(text, "x");
        }
        _ => panic!("expected an invalid mesh_u"),
    }
    match parse_arguments(&strings(&["direct", "a", "b", "3", "-2"]), String::new()) {
        Err(CliError::InvalidNumber { name, text }) => {
            assert_eq!(name, "mesh_v");
            assert_eq!(text, "-2");
        }
        _ => panic!("expected an invalid mesh_v"),
    }
}

#[test]
fn output_format_of_absolute_paths() {
    assert_eq!(with_output(Some("/tmp/out.vtk")).output_format(), Some(OutputFormat::Vtk));
    assert_eq!(with_output(Some("/a.b/out.PNG")).output_format(), Some(OutputFormat::Png));
    assert_eq!(with_output(Some("/tmp/out")).output_format(), None);
}

#[test]
fn output_format_with_colons() {
    assert_eq!(with_output(Some("ab:c.vtk")).output_format(), Some(OutputFormat::Vtk));
    assert_eq!(with_output(Some("run:1/out.PNG")).output_format(), Some(OutputFormat::Png));
}

#[test]
fn output_format_ignores_trailing_separators() {
    assert_eq!(with_output(Some("out.vtk/")).output_format(), Some(OutputFormat::Vtk));
    assert_eq!(with_output(Some("a/b.png/.")).output_format(), Some(OutputFormat::Png));
    assert_eq!(with_output(Some("a/b.vtk/./")).output_format(), Some(OutputFormat::Vtk));
    assert_eq!(with_output(Some("a/b.vtk/..")).output_format(), None);
}
