//! NER model provisioning behind a trait.

use vstd::prelude::*;

verus! {

/// std's owned path, held opaquely.
#[verifier::external_type_specification]
#[verifier::external_body]
pub struct ExPathBuf(std::path::PathBuf);

#[derive(Debug)]
pub enum ModelError {
    Install(String),
}

/// Provisions the bundled NER model with `gaze-model-setup`, into
/// `model_dir` or that crate's default directory.
pub struct GazeModelProvisioner {
    pub model_dir: Option<std::path::PathBuf>,
}

/// Makes a NER model directory available; implemented by the deployment.
pub trait ModelProvisioner: Send + Sync {
    fn ensure(&self) -> Result<std::path::PathBuf, ModelError>;
}

} // verus!
