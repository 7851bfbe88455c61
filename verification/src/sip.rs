//! The SIP convention: forward (projection) and optional reverse
//! (deprojection) polynomials on the two axes, with their domains of validity.
//!
//! For the SIP convention, see "The SIP convention for Representing Distortion
//! in FITS Image Headers" by David L. Shupe et al., in the proceedings of
//! ADASS XIV (2005).
use vstd::prelude::*;

use crate::coeff::{CoeffModel, SipCoeff};

verus! {

/// Closed interval `start..=end`.
#[derive(Clone, Copy, Debug)]
pub struct Span<T> {
    pub start: T,
    pub end: T,
}

/// Mathematical model of the coefficients on the two axes.
pub struct ABModel<T> {
    pub a: CoeffModel<T>,
    pub b: CoeffModel<T>,
}

/// SIP (un)projection coefficients for 1st and 2nd axis.
pub struct SipAB<T> {
    /// Polynomial coefficients on the 1st axis.
    a: SipCoeff<T>,
    /// Polynomial coefficients on the 2nd axis.
    b: SipCoeff<T>,
}

impl<T> View for SipAB<T> {
    type V = ABModel<T>;

    closed spec fn view(&self) -> ABModel<T> {
        ABModel { a: self.a@, b: self.b@ }
    }
}

impl<T> SipAB<T> {
    /// # Params
    /// * `a`: 1st axis SIP coefficients
    /// * `b`: 2nd axis SIP coefficients
    pub fn new(a: SipCoeff<T>, b: SipCoeff<T>) -> (res: Self)
        ensures
            res@ == (ABModel { a: a@, b: b@ }),
    {
        SipAB { a, b }
    }

    /// Coefficients on the 1st axis.
    pub fn a(&self) -> (a: &SipCoeff<T>)
        ensures
            a@ == self@.a,
    {
        &self.a
    }

    /// Coefficients on the 2nd axis.
    pub fn b(&self) -> (b: &SipCoeff<T>)
        ensures
            b@ == self@.b,
    {
        &self.b
    }

    /// A copy of both polynomials.
    pub fn duplicate(&self) -> (res: Self)
        where
            T: Copy,
        ensures
            res@ == self@,
    {
        SipAB { a: self.a.duplicate(), b: self.b.duplicate() }
    }
}

/// Number of iterations of the bivariate Newton-Raphson method.
pub const N_ITER: u8 = 20;

/// Mathematical model of a SIP transformation.
pub struct SipModel<T> {
    pub ab_proj: ABModel<T>,
    pub ab_deproj: Option<ABModel<T>>,
    pub u: Span<T>,
    pub v: Span<T>,
    pub fuv: Span<T>,
    pub guv: Span<T>,
    pub n_iter: nat,
}

impl<T> SipModel<T> {
    /// The transformation with the forward and reverse polynomials swapped, on
    /// the same domains; the bounds of `f` and `g` become the domains
    /// themselves. None when there is no reverse polynomial.
    pub open spec fn inverse(self) -> Option<SipModel<T>> {
        match self.ab_deproj {
            Some(deproj) => Some(
                SipModel {
                    ab_proj: deproj,
                    ab_deproj: Some(self.ab_proj),
                    u: self.u,
                    v: self.v,
                    fuv: self.u,
                    guv: self.v,
                    n_iter: N_ITER as nat,
                },
            ),
            None => None,
        }
    }
}

/// A SIP transformation.
pub struct Sip<T> {
    /// Projection coefficients.
    ab_proj: SipAB<T>,
    /// Unprojection coefficients (if any).
    ab_deproj: Option<SipAB<T>>,
    /// Approximate bounds of the 1st axis domain of validity.
    u: Span<T>,
    /// Approximate bounds of the 2nd axis domain of validity.
    v: Span<T>,
    /// Bounds of `f` over the domain.
    fuv: Span<T>,
    /// Bounds of `g` over the domain.
    guv: Span<T>,
    /// Number of iterations of the bivariate Newton-Raphson method.
    n_iter: u8,
}

impl<T> View for Sip<T> {
    type V = SipModel<T>;

    closed spec fn view(&self) -> SipModel<T> {
        SipModel {
            ab_proj: self.ab_proj@,
            ab_deproj: match self.ab_deproj {
                Some(d) => Some(d@),
                None => None,
            },
            u: self.u,
            v: self.v,
            fuv: self.fuv,
            guv: self.guv,
            n_iter: self.n_iter as nat,
        }
    }
}

impl<T> Sip<T> {
    /// Implements the SIP convention with the given polynomial coefficients.
    /// # Params
    /// * `ab_proj`: SIP coefficients for the projection on the 1st and 2nd axis
    /// * `ab_deproj`: SIP coefficients for the deprojection on the 1st and 2nd axis (if any)
    /// * `u`: 1st axis domain of validity, e.g. `[-CRPIX1..NAXIS1 - CRPIX1]`
    /// * `v`: 2nd axis domain of validity, e.g. `[-CRPIX2..NAXIS2 - CRPIX2]`
    /// * `fuv`, `guv`: bounds of the projection polynomials over that domain,
    ///   the domain of validity of the bivariate Newton-Raphson method
    pub fn new(
        ab_proj: SipAB<T>,
        ab_deproj: Option<SipAB<T>>,
        u: Span<T>,
        v: Span<T>,
        fuv: Span<T>,
        guv: Span<T>,
    ) -> (res: Self)
        ensures
            res@.ab_proj == ab_proj@,
            res@.ab_deproj == (match ab_deproj {
                Some(d) => Some(d@),
                None => None,
            }),
            res@.u == u,
            res@.v == v,
            res@.fuv == fuv,
            res@.guv == guv,
            res@.n_iter == N_ITER,
    {
        Sip { ab_proj, ab_deproj, u, v, fuv, guv, n_iter: N_ITER }
    }

    /// Whether reverse (deprojection) polynomials are given.
    pub fn has_polynomial_deproj(&self) -> (res: bool)
        ensures
            res == self@.ab_deproj is Some,
    {
        self.ab_deproj.is_some()
    }

    /// The forward SIP coefficients (A_ij, B_ij).
    pub fn ab_proj(&self) -> (res: &SipAB<T>)
        ensures
            res@ == self@.ab_proj,
    {
        &self.ab_proj
    }

    /// The reverse SIP coefficients (AP_ij, BP_ij), if any.
    pub fn ab_deproj(&self) -> (res: Option<&SipAB<T>>)
        ensures
            res is Some == self@.ab_deproj is Some,
            res matches Some(d) ==> self@.ab_deproj == Some(d@),
    {
        match &self.ab_deproj {
            Some(d) => Some(d),
            None => None,
        }
    }

    /// The 1st axis domain of validity of the SIP transformation.
    pub fn u_domain(&self) -> (res: &Span<T>)
        ensures
            *res == self@.u,
    {
        &self.u
    }

    /// The 2nd axis domain of validity of the SIP transformation.
    pub fn v_domain(&self) -> (res: &Span<T>)
        ensures
            *res == self@.v,
    {
        &self.v
    }

    /// Bounds of `f` over the domain of validity.
    pub fn fuv_domain(&self) -> (res: &Span<T>)
        ensures
            *res == self@.fuv,
    {
        &self.fuv
    }

    /// Bounds of `g` over the domain of validity.
    pub fn guv_domain(&self) -> (res: &Span<T>)
        ensures
            *res == self@.guv,
    {
        &self.guv
    }

    /// Number of iterations of the bivariate Newton-Raphson method.
    pub fn n_iter(&self) -> (res: u8)
        ensures
            res == self@.n_iter,
    {
        self.n_iter
    }

    /// Returns a new Sip object representing the inverse transformation.
    /// This is achieved by swapping the `ab_proj` and `ab_deproj` coefficients.
    /// If `ab_deproj` is `None` (i.e., no reverse polynomial coefficients like AP_ij, BP_ij are defined),
    /// this method returns `None`, as a simple coefficient-swapped inverse Sip object cannot be formed.
    pub fn get_inverse_sip_transform(&self) -> (res: Option<Self>)
        where
            T: Copy,
        ensures
            match res {
                Some(s) => self@.inverse() == Some(s@),
                None => self@.inverse() is None,
            },
            res is Some == self@.ab_deproj is Some,
            res matches Some(i) ==> {
                &&& i@.ab_proj.a == self@.ab_deproj.unwrap().a
                &&& i@.ab_proj.b == self@.ab_deproj.unwrap().b
                &&& i@.ab_deproj == Some(self@.ab_proj)
                &&& i@.ab_deproj.unwrap().a == self@.ab_proj.a
                &&& i@.ab_deproj.unwrap().b == self@.ab_proj.b
                &&& i@.u == self@.u
                &&& i@.v == self@.v
                &&& i@.fuv == self@.u
                &&& i@.guv == self@.v
                &&& i@.n_iter == N_ITER
            },
    {
        match &self.ab_deproj {
            Some(deproj) => Some(
                Sip {
                    ab_proj: deproj.duplicate(),
                    ab_deproj: Some(self.ab_proj.duplicate()),
                    u: self.u,
                    v: self.v,
                    fuv: self.u,
                    guv: self.v,
                    n_iter: N_ITER,
                },
            ),
            None => None,
        }
    }
}

/// Law: a transformation has an inverse exactly when it has reverse
/// polynomials, and that inverse always has reverse polynomials.
pub proof fn lemma_inverse_exists<T>(s: SipModel<T>)
    ensures
        s.inverse() is Some == s.ab_deproj is Some,
        s.inverse() matches Some(i) ==> i.ab_deproj is Some,
{
}

/// Law: the inverse swaps the forward and the reverse polynomials, axis by
/// axis: its forward polynomial on each axis is the old reverse polynomial of
/// that axis, and its reverse polynomials are the old forward ones.
pub proof fn lemma_inverse_swaps<T>(s: SipModel<T>)
    requires
        s.ab_deproj is Some,
    ensures
        s.inverse() is Some,
        s.inverse().unwrap().ab_proj.a == s.ab_deproj.unwrap().a,
        s.inverse().unwrap().ab_proj.b == s.ab_deproj.unwrap().b,
        s.inverse().unwrap().ab_deproj is Some,
        s.inverse().unwrap().ab_deproj.unwrap().a == s.ab_proj.a,
        s.inverse().unwrap().ab_deproj.unwrap().b == s.ab_proj.b,
        s.inverse().unwrap().u == s.u,
        s.inverse().unwrap().v == s.v,
{
}

/// Law: inverting twice gives back the original polynomials and domains (the
/// bounds of `f` and `g` become the domains, as in any inverse).
pub proof fn lemma_inverse_twice<T>(s: SipModel<T>)
    requires
        s.ab_deproj is Some,
    ensures
        s.inverse().unwrap().inverse() == Some(
            SipModel { fuv: s.u, guv: s.v, n_iter: N_ITER as nat, ..s },
        ),
{
}

} // verus!
