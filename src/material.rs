use vstd::prelude::*;

verus! {

/// A diffusely reflecting surface.
#[derive(Clone, Copy, Debug)]
pub struct Lambertian<C> {
    pub albedo: C,
}

/// A reflecting surface; `fuzz` in `[0, 1]` widens the reflection, 0 is a perfect mirror.
#[derive(Clone, Copy, Debug)]
pub struct Metal<C, S> {
    pub albedo: C,
    pub fuzz: S,
}

/// A transparent surface that refracts or reflects.
#[derive(Clone, Copy, Debug)]
pub struct Dielectric<S> {
    pub refraction_index: S,
}

/// A light source.
#[derive(Clone, Copy, Debug)]
pub struct DiffuseLight<C> {
    pub emitted: C,
}

/// The closed set of scattering behaviours, over a colour type `C` and a scalar type `S`.
#[derive(Clone, Copy, Debug)]
pub enum Material<C, S> {
    Lambertian(Lambertian<C>),
    Metal(Metal<C, S>),
    Dielectric(Dielectric<S>),
    DiffuseLight(DiffuseLight<C>),
}

impl<C> Lambertian<C> {
    pub fn new(albedo: C) -> (r: Self)
        ensures
            r.albedo == albedo,
    {
        Self { albedo }
    }
}

impl<C, S> Metal<C, S> {
    pub fn new(albedo: C, fuzz: S) -> (r: Self)
        ensures
            r.albedo == albedo,
            r.fuzz == fuzz,
    {
        Self { albedo, fuzz }
    }
}

impl<S> Dielectric<S> {
    pub fn new(refraction_index: S) -> (r: Self)
        ensures
            r.refraction_index == refraction_index,
    {
        Self { refraction_index }
    }
}

impl<C> DiffuseLight<C> {
    pub fn new(emitted: C) -> (r: Self)
        ensures
            r.emitted == emitted,
    {
        Self { emitted }
    }
}

impl<C: Copy, S> Material<C, S> {
    /// Whether a hit on this material can continue the path. A light never scatters: its hit
    /// ends the path.
    pub fn scatters(&self) -> (r: bool)
        ensures
            r == !(self is DiffuseLight),
    {
        match self {
            Material::DiffuseLight(_) => false,
            _ => true,
        }
    }

    /// The radiance emitted towards the incoming ray: a light's colour where the ray strikes
    /// its front face, `black` in every other case.
    pub fn emitted(&self, front_face: bool, black: C) -> (r: C)
        ensures
            r == match *self {
                Material::DiffuseLight(l) => if front_face {
                    l.emitted
                } else {
                    black
                },
                _ => black,
            },
    {
        match self {
            Material::DiffuseLight(l) => if front_face {
                l.emitted
            } else {
                black
            },
            _ => black,
        }
    }
}

/// An append-only table of materials; the id of a material is its position, and stays valid
/// for the table's lifetime.
pub struct MaterialTable<M> {
    items: Vec<M>,
}

impl<M> MaterialTable<M> {
    pub closed spec fn view(&self) -> Seq<M> {
        self.items@
    }

    pub fn new() -> (r: Self)
        ensures
            r.view() == Seq::<M>::empty(),
    {
        MaterialTable { items: Vec::new() }
    }

    /// Number of materials in the table.
    pub fn len(&self) -> (r: usize)
        ensures
            r == self.view().len(),
    {
        self.items.len()
    }

    /// Appends `mat` and returns its id. Earlier ids keep their materials.
    pub fn add_material(&mut self, mat: M) -> (id: u32)
        requires
            old(self).view().len() < u32::MAX,
        ensures
            final(self).view() == old(self).view().push(mat),
            id == old(self).view().len(),
    {
        self.items.push(mat);
        (self.items.len() - 1) as u32
    }

    /// The material with id `id`.
    pub fn material(&self, id: u32) -> (r: &M)
        requires
            id < self.view().len(),
        ensures
            *r == self.view()[id as int],
    {
        &self.items[id as usize]
    }
}

} // verus!
