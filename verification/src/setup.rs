//! System-level configuration shared by the MAP, BSC and FHRR
//! representations.
use vstd::prelude::*;

verus! {

/// MAP (bipolar) setup: the default dimension of MAP vectors.
#[derive(Debug, Clone, Copy)]
pub struct MapSetup;

impl MapSetup {
    pub const DEFAULT_DIM: usize = 4096;
}

/// BSC (binary spatter coding) setup: the default dimension of BSC vectors.
#[derive(Debug, Clone, Copy)]
pub struct BscSetup;

impl BscSetup {
    pub const DEFAULT_DIM: usize = 4096;
}

/// FHRR (Fourier holographic) setup: the default dimension of FHRR vectors.
#[derive(Debug, Clone, Copy)]
pub struct FhrrSetup;

impl FhrrSetup {
    pub const DEFAULT_DIM: usize = 1024;
}

/// Which of the three VSA representations a system uses.
#[derive(Debug, Clone, Copy)]
pub enum VsaMode {
    MapMode,
    Bsc,
    Fhrr,
}

/// The default dimension of each mode: 4096 for MAP and BSC, 1024 for FHRR.
pub open spec fn mode_default_dim(mode: VsaMode) -> usize {
    match mode {
        VsaMode::MapMode => MapSetup::DEFAULT_DIM,
        VsaMode::Bsc => BscSetup::DEFAULT_DIM,
        VsaMode::Fhrr => FhrrSetup::DEFAULT_DIM,
    }
}

impl VsaMode {
    /// The default dimension of this mode.
    pub fn default_dim(self) -> (d: usize)
        ensures
            d == mode_default_dim(self),
    {
        match self {
            VsaMode::MapMode => MapSetup::DEFAULT_DIM,
            VsaMode::Bsc => BscSetup::DEFAULT_DIM,
            VsaMode::Fhrr => FhrrSetup::DEFAULT_DIM,
        }
    }
}

/// Options of a VSA system: its mode and dimension.
#[derive(Debug, Clone, Copy)]
pub struct VsaSystemOptions {
    pub mode: VsaMode,
    pub dim: usize,
}

impl Default for VsaSystemOptions {
    /// MAP mode at the MAP default dimension.
    fn default() -> (r: Self)
        ensures
            r.mode == VsaMode::MapMode,
            r.dim == MapSetup::DEFAULT_DIM,
    {
        VsaSystemOptions { mode: VsaMode::MapMode, dim: MapSetup::DEFAULT_DIM }
    }
}

impl VsaSystemOptions {
    /// Options with the given mode and dimension.
    pub fn new(mode: VsaMode, dim: usize) -> (r: Self)
        ensures
            r.mode == mode,
            r.dim == dim,
    {
        VsaSystemOptions { mode, dim }
    }

    /// MAP options of the given dimension.
    pub fn map(dim: usize) -> (r: Self)
        ensures
            r.mode == VsaMode::MapMode,
            r.dim == dim,
    {
        Self::new(VsaMode::MapMode, dim)
    }

    /// BSC options of the given dimension.
    pub fn bsc(dim: usize) -> (r: Self)
        ensures
            r.mode == VsaMode::Bsc,
            r.dim == dim,
    {
        Self::new(VsaMode::Bsc, dim)
    }

    /// FHRR options of the given dimension.
    pub fn fhrr(dim: usize) -> (r: Self)
        ensures
            r.mode == VsaMode::Fhrr,
            r.dim == dim,
    {
        Self::new(VsaMode::Fhrr, dim)
    }
}

/// A configured VSA system: one mode and one dimension.
pub struct VsaSystem {
    pub mode: VsaMode,
    pub dim: usize,
}

impl VsaSystem {
    /// The system the options describe.
    pub fn new(options: VsaSystemOptions) -> (r: Self)
        ensures
            r.mode == options.mode,
            r.dim == options.dim,
    {
        VsaSystem { mode: options.mode, dim: options.dim }
    }

    /// The system's mode.
    pub fn mode(&self) -> (m: VsaMode)
        ensures
            m == self.mode,
    {
        self.mode
    }

    /// The system's dimension.
    pub fn dim(&self) -> (d: usize)
        ensures
            d == self.dim,
    {
        self.dim
    }
}

} // verus!
