//! Expansion of YAML workflow templates that reuse named blocks.
//!
//! A workflow is a document in which a mapping of the form
//! `{"$include": name}` stands for the block of that name. Expanding the
//! workflow puts the block in the place of each such mapping. The expanded
//! workflows are then written to the output directory, or compared with what
//! the directory holds.

pub mod expand;
pub mod load;
pub mod names;
pub mod output;
pub mod store;
pub mod value;

pub use expand::{expand_templates, expand_value, TemplateAction, UnknownInclude, WorkflowError};
pub use load::{load_templates_data, load_yamls};
pub use names::{document_name, file_stem, workflow_file_name};
pub use output::{
    compare, verify_current_dir, workflow_files, CompareError, NotRepositoryRoot, OutputFile,
};
pub use store::{Documents, TemplatesData};
pub use value::{Number, Value};
