//! The notebook document: metadata (kernel specification, language info,
//! authors) plus the ordered cells produced by the scanner.

use vstd::prelude::*;
use vstd::string::*;
use crate::language::Language;
use crate::language::LanguageInfo;
use crate::language::spec_file_extension;
use crate::language::spec_mimetype;
use crate::language::spec_name;
use crate::scan::NotebookCell;
use crate::scan::cell_views;
use crate::scan::scan;
use crate::scan::scan_lines;
use crate::scan::views_of;

verus! {

/// One author credited in notebook metadata.
#[derive(Debug, Clone)]
pub struct Author {
    pub name: String,
}

/// The kernel specification block of notebook metadata.
#[derive(Debug, Clone)]
pub struct KernelSpecification {
    pub argv: Option<Vec<String>>,
    pub display_name: String,
    pub language: String,
    pub interrupt_mode: Option<String>,
    pub env: Option<Vec<(String, String)>>,
}

/// The metadata block of a notebook document.
#[derive(Debug, Clone)]
pub struct NotebookMetadata {
    pub kernel_spec: KernelSpecification,
    pub language_info: Option<LanguageInfo>,
    pub authors: Vec<Author>,
}

/// A complete notebook document.
#[derive(Debug)]
pub struct Notebook {
    pub metadata: NotebookMetadata,
    pub nbformat: u64,
    pub nbformat_minor: u64,
    pub cells: Vec<NotebookCell>,
}

/// The tool's resolved invocation: convert a script to a notebook.
#[derive(Debug)]
pub struct Python2Ipynb {
    /// Output path; when absent, it is derived from the input path.
    pub output_path: Option<String>,
    /// Input path of the script to convert.
    pub input_path: String,
    /// Target language: `python` or `julia`.
    pub language: Language,
    /// Author display names, in the order given.
    pub authors: Vec<String>,
}

/// Builds the complete document for the given input lines: fixed format
/// version 4.4, a kernel specification for the chosen language, its
/// language info, the authors in input order, and the scanned cells.
pub fn build_notebook(lines: &Vec<String>, language: Language, authors: &Vec<String>) -> (nb:
    Notebook)
    ensures
        nb.nbformat == 4,
        nb.nbformat_minor == 4,
        nb.metadata.kernel_spec.argv is None,
        nb.metadata.kernel_spec.display_name@ == "python3"@,
        nb.metadata.kernel_spec.language@ == spec_name(language),
        nb.metadata.kernel_spec.interrupt_mode is None,
        nb.metadata.kernel_spec.env is None,
        nb.metadata.language_info matches Some(li) && li.file_extension@ == spec_file_extension(
            language,
        ) && li.mimetype@ == spec_mimetype(language) && li.name@ == spec_name(language),
        nb.metadata.authors@.len() == authors@.len(),
        forall|j: int| 0 <= j < authors@.len() ==> nb.metadata.authors@[j].name@ == authors@[j]@,
        cell_views(nb.cells@) == scan_lines(views_of(lines@)),
{
    let mut author_list: Vec<Author> = Vec::new();
    let mut i: usize = 0;
    while i < authors.len()
        invariant
            0 <= i <= authors.len(),
            author_list@.len() == i,
            forall|j: int| 0 <= j < i ==> author_list@[j].name@ == authors@[j]@,
        decreases authors.len() - i,
    {
        author_list.push(Author { name: authors[i].clone() });
        i = i + 1;
    }
    let cells = scan(lines);
    Notebook {
        metadata: NotebookMetadata {
            kernel_spec: KernelSpecification {
                argv: None,
                display_name: String::from_str("python3"),
                language: String::from_str(language.name()),
                interrupt_mode: None,
                env: None,
            },
            language_info: Some(language.info()),
            authors: author_list,
        },
        nbformat: 4,
        nbformat_minor: 4,
        cells,
    }
}

} // verus!
