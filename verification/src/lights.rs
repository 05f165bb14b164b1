//! A point light source: a position and an intensity.
use crate::color::{ceq, Color, ColorView};
use crate::tuple::{teq, Tuple, TupleView};
use vstd::prelude::*;

verus! {

/// A light at a single point, shining equally in all directions.
#[derive(Clone, Copy, Debug)]
pub struct PointLight {
    pub position: Tuple,
    pub intensity: Color,
}

/// The exact values of a point light.
pub ghost struct PointLightView {
    pub position: TupleView,
    pub intensity: ColorView,
}

impl View for PointLight {
    type V = PointLightView;

    open spec fn view(&self) -> PointLightView {
        PointLightView { position: self.position@, intensity: self.intensity@ }
    }
}

impl PointLight {
    /// Well-formed: position and intensity are well-formed.
    pub open spec fn wf(self) -> bool {
        self.position.wf() && self.intensity.wf()
    }

    /// A light from its position and intensity.
    pub fn new(position: Tuple, intensity: Color) -> (r: PointLight)
        requires
            position.wf(),
            intensity.wf(),
        ensures
            r.wf(),
            r.position == position,
            r.intensity == intensity,
    {
        PointLight { position, intensity }
    }
}

impl PartialEq for PointLight {
    /// Lights are equal when position and intensity denote the same values.
    fn eq(&self, other: &PointLight) -> (r: bool) {
        self.position == other.position && self.intensity == other.intensity
    }
}

impl vstd::std_specs::cmp::PartialEqSpecImpl for PointLight {
    open spec fn obeys_eq_spec() -> bool {
        true
    }

    open spec fn eq_spec(&self, other: &PointLight) -> bool {
        teq(self@.position, other@.position) && ceq(self@.intensity, other@.intensity)
    }
}

} // verus!
