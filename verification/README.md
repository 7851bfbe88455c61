# mapproj (SIP distortion core)

The SIP convention for distortion in FITS image headers, split in two:

- `src/` (verified with Verus): the coefficient layout of a SIP polynomial
  (`coeff.rs`: order from the number of coefficients, the terms of the
  polynomial and of its two partial derivatives, the law that the layout is a
  one-to-one correspondence between monomials and array positions) and the
  bookkeeping of a SIP transformation and of its inverse (`sip.rs`). The
  coefficient values are a type parameter that the library never reads.
- `app/` (plain Rust): the `f64` evaluation of the polynomials, the bounds of
  the projection polynomials, and the bivariate Newton-Raphson method.
