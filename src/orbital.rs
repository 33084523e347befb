use vstd::prelude::*;

use crate::polynomials::{
    as_ints,
    assoc_laguerre,
    associated_legendre_poly,
    associated_p,
    laguerre_fits,
    laguerre_poly,
    legendre_fits,
};

verus! {

/// Principal (`n`), azimuthal (`l`) and magnetic (`ml`) quantum numbers of a
/// hydrogen-like orbital.
#[derive(Clone, Copy, Debug, Default, PartialEq, Eq, Structural)]
pub struct QuantumNumbers {
    pub n: u8,
    pub l: u8,
    pub ml: i8,
}

/// Why the polynomial parts of an orbital could not be produced.
#[derive(Clone, Copy, Debug, PartialEq, Eq, Structural)]
pub enum OrbitalError {
    /// The quantum numbers violate `n >= 1`, `l <= n - 1` or `|ml| <= l`.
    InvalidQuantumNumbers,
    /// A polynomial coefficient does not fit in 128 bits.
    Overflow,
}

/// The exact polynomial factors of an orbital's wavefunction.
/// With `rho = 2r/n`, the radial polynomial is
/// `sum_j radial[j] rho^j / (n-l-1)!`, and the angular one is
/// `(sin theta)^|ml| * sum_j angular[j] (cos theta)^j / (l-|ml|)!`.
#[derive(Debug)]
pub struct OrbitalPolynomials {
    pub radial: Vec<i128>,
    pub angular: Vec<i128>,
}

impl QuantumNumbers {
    /// `|ml|`, the order of the associated Legendre function.
    pub open spec fn order(self) -> nat {
        if self.ml < 0 {
            (-self.ml) as nat
        } else {
            self.ml as nat
        }
    }

    /// The physically meaningful combinations: `1 <= n`, `0 <= l <= n - 1`, `|ml| <= l`.
    pub open spec fn is_physical(self) -> bool {
        &&& 1 <= self.n
        &&& self.l < self.n
        &&& self.order() <= self.l
    }

    /// Degree of the radial Laguerre polynomial, `n - l - 1`.
    pub open spec fn radial_degree(self) -> nat {
        (self.n - self.l - 1) as nat
    }

    /// Order of the radial Laguerre polynomial, `2l + 1`.
    pub open spec fn radial_order(self) -> nat {
        (2 * self.l + 1) as nat
    }

    /// `|ml|`.
    pub fn magnetic_order(&self) -> (r: u8)
        ensures
            r as nat == self.order(),
    {
        if self.ml < 0 {
            (-(self.ml as i16)) as u8
        } else {
            self.ml as u8
        }
    }

    /// Whether the quantum numbers describe an orbital.
    pub fn is_valid(&self) -> (r: bool)
        ensures
            r == self.is_physical(),
    {
        let m = self.magnetic_order();
        1 <= self.n && self.l < self.n && m <= self.l
    }
}

/// The radial Laguerre and angular Legendre polynomials of the orbital named by `qn`:
/// `AssocLaguerre(n-l-1, 2l+1, .)` and `AssocLegendre(l, |ml|, .)`, exactly.
pub fn orbital_polynomials(qn: QuantumNumbers) -> (r: Result<OrbitalPolynomials, OrbitalError>)
    ensures
        r == Err::<OrbitalPolynomials, OrbitalError>(OrbitalError::InvalidQuantumNumbers)
            <==> !qn.is_physical(),
        r == Err::<OrbitalPolynomials, OrbitalError>(OrbitalError::Overflow) <==> qn.is_physical()
            && !(laguerre_fits(qn.radial_degree(), qn.radial_order() as int) && legendre_fits(
            qn.l as nat,
            qn.order(),
        )),
        r matches Ok(p) ==> {
            &&& as_ints(p.radial@) == laguerre_poly(qn.radial_degree(), qn.radial_order() as int)
            &&& as_ints(p.angular@) == associated_legendre_poly(qn.l as nat, qn.order())
        },
{
    if !qn.is_valid() {
        return Err(OrbitalError::InvalidQuantumNumbers);
    }
    let m = qn.magnetic_order();
    let degree: u8 = qn.n - qn.l - 1;
    let order: u16 = 2 * (qn.l as u16) + 1;
    let radial = match assoc_laguerre(degree, order) {
        Some(v) => v,
        None => {
            return Err(OrbitalError::Overflow);
        },
    };
    let angular = match associated_p(qn.l, m) {
        Some(v) => v,
        None => {
            return Err(OrbitalError::Overflow);
        },
    };
    Ok(OrbitalPolynomials { radial, angular })
}

/// The bound `10 n^2` on the radius of proposed points.
pub fn proposal_radius(n: u8) -> (r: u32)
    ensures
        r == 10 * n * n,
{
    proof {
        assert(10 * n * n <= 10 * 255 * 255) by (nonlinear_arith)
            requires
                n <= 255,
        ;
    }
    10 * (n as u32) * (n as u32)
}

} // verus!
