use python2ipynb::language::Language;
use python2ipynb::notebook::build_notebook;
use python2ipynb::paths::default_output_path;

#[test]
fn empty_input_yields_well_formed_shell() {
    let nb = build_notebook(&Vec::new(), Language::Python, &Vec::new());
    assert_eq!(nb.nbformat, 4);
    assert_eq!(nb.nbformat_minor, 4);
    assert!(nb.cells.is_empty());
    assert!(nb.metadata.kernel_spec.argv.is_none());
    assert_eq!(nb.metadata.kernel_spec.display_name, "python3");
    assert_eq!(nb.metadata.kernel_spec.language, "python");
    assert!(nb.metadata.kernel_spec.interrupt_mode.is_none());
    assert!(nb.metadata.kernel_spec.env.is_none());
    assert!(nb.metadata.authors.is_empty());
    let info = nb.metadata.language_info.as_ref().unwrap();
    assert_eq!(info.file_extension, ".py");
    assert_eq!(info.mimetype, "application/python");
    assert_eq!(info.name, "python");
}

#[test]
fn authors_flow_through_in_order_without_dedup() {
    let authors = vec!["Ada".to_string(), "Grace".to_string(), "Ada".to_string()];
    let nb = build_notebook(&Vec::new(), Language::Python, &authors);
    assert_eq!(nb.metadata.authors.len(), 3);
    assert_eq!(nb.metadata.authors[0].name, "Ada");
    assert_eq!(nb.metadata.authors[1].name, "Grace");
    assert_eq!(nb.metadata.authors[2].name, "Ada");
}

#[test]
fn julia_selects_julia_metadata() {
    let nb = build_notebook(&Vec::new(), Language::Julia, &Vec::new());
    assert_eq!(nb.metadata.kernel_spec.language, "julia");
    let info = nb.metadata.language_info.as_ref().unwrap();
    assert_eq!(info.file_extension, ".jl");
    assert_eq!(info.mimetype, "application/julia");
    assert_eq!(info.name, "julia");
}

#[test]
fn language_constants() {
    assert_eq!(Language::Python.file_extension(), ".py");
    assert_eq!(Language::Python.mimetype(), "application/python");
    assert_eq!(Language::Python.name(), "python");
    assert_eq!(Language::Julia.file_extension(), ".jl");
    assert_eq!(Language::Julia.mimetype(), "application/julia");
    assert_eq!(Language::Julia.name(), "julia");
}

#[test]
fn language_from_str_accepts_python_and_julia() {
    assert!(matches!(Language::from_str("python"), Ok(Language::Python)));
    assert!(matches!(Language::from_str("julia"), Ok(Language::Julia)));
}

#[test]
fn language_from_str_rejects_other_text() {
    let err = Language::from_str("rust").unwrap_err();
    assert_eq!(err.attempted, "rust");
    assert_eq!(
        err.message(),
        "Attempted to parse rust, but expected 'julia' or 'python'"
    );
}

#[test]
fn default_output_path_replaces_extension() {
    assert_eq!(default_output_path("foo.py"), "./foo.ipynb");
}

#[test]
fn default_output_path_uses_final_component() {
    assert_eq!(default_output_path("dir/sub/a.b.c"), "./a.b.ipynb");
}

#[test]
fn default_output_path_without_extension() {
    assert_eq!(default_output_path("script"), "./script.ipynb");
}

#[test]
fn default_output_path_keeps_hidden_file_name() {
    assert_eq!(default_output_path(".bashrc"), "./.bashrc.ipynb");
}

#[test]
fn scanned_cells_reach_the_document() {
    let ls: Vec<String> = vec!["#%%code".to_string(), "x = 1".to_string()];
    let nb = build_notebook(&ls, Language::Python, &Vec::new());
    assert_eq!(nb.cells.len(), 1);
    assert_eq!(nb.cells[0].source, "x = 1");
}
