use mapproj::coeff::{order_from_n_coeff, SipCoeff, Term, MAX_ORDER};
use mapproj::sip::{Sip, SipAB, Span, N_ITER};

fn term(coeff: usize, factor: u16, u_pow: u16, v_pow: u16) -> Term {
  Term { coeff, factor, u_pow, v_pow }
}

#[test]
fn order_is_triangular_root() {
  let expected = [(0, 0), (1, 1), (2, 1), (3, 2), (4, 2), (5, 2), (6, 3), (9, 3), (10, 4), (15, 5), (21, 6)];
  for &(n, order) in expected.iter() {
    assert_eq!(order_from_n_coeff(n), order, "n_coeff = {}", n);
  }
}

#[test]
fn order_is_capped() {
  // 32767 * 32768 / 2 coefficients is the largest count, which the cap reaches exactly
  assert_eq!(order_from_n_coeff(536854528), MAX_ORDER);
  assert_eq!(order_from_n_coeff(536854527), MAX_ORDER - 1);
  assert_eq!(order_from_n_coeff(536854528 + 40000), MAX_ORDER);
}

#[test]
fn p_terms_follow_fits_order() {
  let c = SipCoeff::new(vec![0u8; 6]);
  assert_eq!(c.order(), 3);
  let expected = vec![
    term(0, 1, 0, 0),
    term(1, 1, 0, 1),
    term(2, 1, 0, 2),
    term(3, 1, 1, 0),
    term(4, 1, 1, 1),
    term(5, 1, 2, 0),
  ];
  assert_eq!(c.p_terms(), expected);
}

#[test]
fn dpdu_terms_drop_first_row() {
  let c = SipCoeff::new(vec![0u8; 6]);
  let expected = vec![term(3, 1, 0, 0), term(4, 1, 0, 1), term(5, 2, 1, 0)];
  assert_eq!(c.dpdu_terms(), expected);
}

#[test]
fn dpdv_terms_drop_first_column() {
  let c = SipCoeff::new(vec![0u8; 6]);
  let expected = vec![term(1, 1, 0, 0), term(2, 2, 0, 1), term(4, 1, 1, 0)];
  assert_eq!(c.dpdv_terms(), expected);
}

#[test]
fn every_coefficient_used_once() {
  for order in 0usize..12 {
    let len = order * (order + 1) / 2;
    let c = SipCoeff::new(vec![0u32; len]);
    let terms = c.p_terms();
    assert_eq!(terms.len(), len);
    for (k, t) in terms.iter().enumerate() {
      assert_eq!(t.coeff, k);
      assert!((t.u_pow as usize) + (t.v_pow as usize) < order);
    }
    assert_eq!(c.dpdu_terms().len() + order, len);
    assert_eq!(c.dpdv_terms().len() + order, len);
  }
}

#[test]
fn empty_polynomial_has_no_terms() {
  let c = SipCoeff::new(Vec::<i64>::new());
  assert_eq!(c.order(), 0);
  assert!(c.p_terms().is_empty());
  assert!(c.dpdu_terms().is_empty());
  assert!(c.dpdv_terms().is_empty());
}

fn coeff(values: &[i32]) -> SipCoeff<i32> {
  SipCoeff::new(values.to_vec())
}

fn span(start: i32, end: i32) -> Span<i32> {
  Span { start, end }
}

#[test]
fn inverse_swaps_polynomials() {
  let proj = SipAB::new(coeff(&[1, 2, 3]), coeff(&[4, 5, 6]));
  let deproj = SipAB::new(coeff(&[7, 8, 9]), coeff(&[10, 11, 12]));
  let s = Sip::new(proj, Some(deproj), span(-5, 5), span(-3, 3), span(-7, 7), span(-9, 9));
  assert!(s.has_polynomial_deproj());
  assert_eq!(s.n_iter(), N_ITER);
  let inv = s.get_inverse_sip_transform().unwrap();
  assert_eq!(inv.ab_proj().a().coeffs(), &vec![7, 8, 9]);
  assert_eq!(inv.ab_proj().b().coeffs(), &vec![10, 11, 12]);
  let back = inv.ab_deproj().unwrap();
  assert_eq!(back.a().coeffs(), &vec![1, 2, 3]);
  assert_eq!(back.b().coeffs(), &vec![4, 5, 6]);
  assert_eq!((inv.u_domain().start, inv.u_domain().end), (-5, 5));
  assert_eq!((inv.v_domain().start, inv.v_domain().end), (-3, 3));
  assert_eq!((inv.fuv_domain().start, inv.fuv_domain().end), (-5, 5));
  assert_eq!((inv.guv_domain().start, inv.guv_domain().end), (-3, 3));
  assert_eq!(inv.n_iter(), N_ITER);
  // inverting twice gives the original polynomials back
  let twice = inv.get_inverse_sip_transform().unwrap();
  assert_eq!(twice.ab_proj().a().coeffs(), &vec![1, 2, 3]);
  assert_eq!(twice.ab_proj().b().coeffs(), &vec![4, 5, 6]);
  assert_eq!(twice.ab_deproj().unwrap().a().coeffs(), &vec![7, 8, 9]);
  assert_eq!(twice.ab_deproj().unwrap().b().coeffs(), &vec![10, 11, 12]);
}

#[test]
fn no_inverse_without_deprojection() {
  let proj = SipAB::new(coeff(&[1, 2, 3]), coeff(&[4, 5, 6]));
  let s = Sip::new(proj, None, span(-5, 5), span(-3, 3), span(-7, 7), span(-9, 9));
  assert!(!s.has_polynomial_deproj());
  assert!(s.ab_deproj().is_none());
  assert!(s.get_inverse_sip_transform().is_none());
  assert_eq!((s.fuv_domain().start, s.fuv_domain().end), (-7, 7));
}
