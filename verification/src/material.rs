//! Surface materials: which texture each one reads, and what each one decides
//! when a ray arrives.

use vstd::prelude::*;

verus! {

/// A diffuse surface. Its colour comes from a texture of the scene, named by
/// its index among the scene's textures.
#[derive(Clone, Copy, Debug)]
pub struct Lambertian {
    albedo: usize,
}

impl Lambertian {
    /// The index of the texture that colours this surface.
    pub closed spec fn texture_index(&self) -> usize {
        self.albedo
    }

    pub fn new(a: usize) -> (m: Self)
        ensures
            m.texture_index() == a,
    {
        Self { albedo: a }
    }

    pub fn texture(&self) -> (a: usize)
        ensures
            a == self.texture_index(),
    {
        self.albedo
    }
}

/// A light source. What it emits comes from a texture of the scene.
#[derive(Clone, Copy, Debug)]
pub struct DiffuseLight {
    emit: usize,
}

impl DiffuseLight {
    /// The index of the texture that this light emits.
    pub closed spec fn texture_index(&self) -> usize {
        self.emit
    }

    pub fn new(a: usize) -> (m: Self)
        ensures
            m.texture_index() == a,
    {
        Self { emit: a }
    }

    pub fn texture(&self) -> (a: usize)
        ensures
            a == self.texture_index(),
    {
        self.emit
    }
}

/// A participating medium that scatters evenly in all directions.
#[derive(Clone, Copy, Debug)]
pub struct Isotropic {
    albedo: usize,
}

impl Isotropic {
    /// The index of the texture that colours this medium.
    pub closed spec fn texture_index(&self) -> usize {
        self.albedo
    }

    pub fn new(a: usize) -> (m: Self)
        ensures
            m.texture_index() == a,
    {
        Self { albedo: a }
    }

    pub fn texture(&self) -> (a: usize)
        ensures
            a == self.texture_index(),
    {
        self.albedo
    }
}

/// The closed set of material variants.
#[derive(Clone, Copy, Debug, PartialEq, Eq, Structural)]
pub enum MaterialKind {
    Lambertian,
    Metal,
    Dielectric,
    DiffuseLight,
    Isotropic,
}

/// Which of its two outgoing rays a dielectric follows.
#[derive(Clone, Copy, Debug, PartialEq, Eq, Structural)]
pub enum Branch {
    Reflect,
    Refract,
}

impl MaterialKind {
    /// Whether a ray that arrives at this material goes on. `above_surface`
    /// says that the sampled outgoing direction has a positive dot product
    /// with the surface normal; only a metal reads it.
    pub open spec fn spec_scatters(self, above_surface: bool) -> bool {
        match self {
            MaterialKind::Lambertian => true,
            MaterialKind::Metal => above_surface,
            MaterialKind::Dielectric => true,
            MaterialKind::DiffuseLight => false,
            MaterialKind::Isotropic => true,
        }
    }

    pub fn scatters(self, above_surface: bool) -> (s: bool)
        ensures
            s == self.spec_scatters(above_surface),
    {
        match self {
            MaterialKind::Metal => above_surface,
            MaterialKind::DiffuseLight => false,
            _ => true,
        }
    }

    /// Whether the material injects radiance of its own.
    pub open spec fn spec_emits(self) -> bool {
        self == MaterialKind::DiffuseLight
    }

    pub fn emits(self) -> (e: bool)
        ensures
            e == self.spec_emits(),
    {
        match self {
            MaterialKind::DiffuseLight => true,
            _ => false,
        }
    }

    /// Whether the density of the material's true distribution is computed
    /// apart from the density it samples with. Every other material is
    /// treated as a delta distribution of density one.
    pub open spec fn spec_reweights(self) -> bool {
        self == MaterialKind::Lambertian
    }

    pub fn reweights(self) -> (w: bool)
        ensures
            w == self.spec_reweights(),
    {
        match self {
            MaterialKind::Lambertian => true,
            _ => false,
        }
    }
}

/// The ray a dielectric follows: the refracted one exactly when refraction is
/// possible and the uniform draw fell below the transmission probability.
pub open spec fn spec_dielectric_branch(can_refract: bool, draw_below_transmission: bool) -> Branch {
    if can_refract && draw_below_transmission {
        Branch::Refract
    } else {
        Branch::Reflect
    }
}

/// Chooses between reflection and refraction. Under total internal
/// reflection (`can_refract` false) the choice is always reflection.
pub fn dielectric_branch(can_refract: bool, draw_below_transmission: bool) -> (b: Branch)
    ensures
        b == spec_dielectric_branch(can_refract, draw_below_transmission),
{
    if can_refract {
        if draw_below_transmission {
            return Branch::Refract;
        }
    }
    Branch::Reflect
}

/// A light never scatters, whatever the sampled direction.
pub proof fn lemma_light_absorbs(above_surface: bool)
    ensures
        !MaterialKind::DiffuseLight.spec_scatters(above_surface),
        MaterialKind::DiffuseLight.spec_emits(),
{
}

/// A dielectric never absorbs: it always scatters, and under total internal
/// reflection it reflects.
pub proof fn lemma_dielectric_always_scatters(above_surface: bool, draw_below_transmission: bool)
    ensures
        MaterialKind::Dielectric.spec_scatters(above_surface),
        spec_dielectric_branch(false, draw_below_transmission) == Branch::Reflect,
{
}

} // verus!
