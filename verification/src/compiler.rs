//! Compiler of AI models into the chip's W-matrix format.

use vstd::prelude::*;
use crate::api::zeros;

verus! {

/// Size of the W-matrix image the compiler produces.
pub const COMPILED_IMAGE_LEN: usize = 100;

/// Compiler configuration.
#[derive(Debug, Clone, Copy, PartialEq, Eq, Structural)]
pub struct CompilerConfig {
    pub quantization_bits: u8,
    pub max_matrix_size: usize,
}

impl Default for CompilerConfig {
    fn default() -> (r: Self)
        ensures
            r == (CompilerConfig { quantization_bits: 16, max_matrix_size: 10000 }),
    {
        CompilerConfig { quantization_bits: 16, max_matrix_size: 10000 }
    }
}

/// Model compiler.
pub struct ModelCompiler {
    config: CompilerConfig,
}

impl ModelCompiler {
    /// The configuration the compiler was made with.
    pub closed spec fn config_spec(&self) -> CompilerConfig {
        self.config
    }

    /// A compiler with the given configuration.
    pub fn new(config: CompilerConfig) -> (r: Self)
        ensures
            r.config_spec() == config,
    {
        ModelCompiler { config }
    }

    /// Compile a model file into a W-matrix image: a zeroed image of
    /// `COMPILED_IMAGE_LEN` bytes, whatever the model.
    pub fn compile(&self, model_path: &str) -> (r: Result<Vec<u8>, String>)
        ensures
            r matches Ok(image) && image@ == zeros(COMPILED_IMAGE_LEN as nat),
    {
        let mut image: Vec<u8> = Vec::new();
        let mut i: usize = 0;
        while i < COMPILED_IMAGE_LEN
            invariant
                i <= COMPILED_IMAGE_LEN,
                image@ == zeros(i as nat),
            decreases COMPILED_IMAGE_LEN - i,
        {
            image.push(0u8);
            assert(image@ =~= zeros((i + 1) as nat));
            i += 1;
        }
        Ok(image)
    }
}

} // verus!
