use trinomial_pricing::PricingError;
use trinomial_pricing::StockPriceTree;
use trinomial_pricing::TrinomialOptionPricing;

/// The up and down moves of a trinomial model with per-step volatility `u`.
fn moves(u: f64) -> (impl Fn(f64) -> f64, impl Fn(f64) -> f64) {
    let exp_up = u.exp();
    let exp_down = (-u).exp();
    (move |x: f64| x * exp_up, move |x: f64| x * exp_down)
}

/// The one-step discounted combination of the trinomial model: derives the
/// risk-neutral probabilities from (rate `r`, probability parameter `p`,
/// step size `h`, volatility `u`) and weighs the up/middle/down successor
/// values with them under the discount factor.
fn trinomial_combine(r: f64, p: f64, h: f64, u: f64) -> impl Fn(f64, f64, f64) -> f64 {
    let exp_rh = (r * h).exp();
    let exp_u = u.exp();
    let exp_neg_u = (-u).exp();
    let denominator = exp_u - exp_neg_u;
    let q0 = 1.0 - 2.0 * p;
    let qu = (exp_rh - exp_neg_u) / denominator - q0 * (1.0 - exp_neg_u) / denominator;
    let qd = (exp_u - exp_rh) / denominator - q0 * (exp_u - 1.0) / denominator;
    let discount = (-r * h).exp();
    move |up: f64, mid: f64, down: f64| discount * (qu * up + q0 * mid + qd * down)
}

fn close(a: f64, b: f64, tol: f64) -> bool {
    (a - b).abs() <= tol
}

fn rel_close(a: f64, b: f64, tol: f64) -> bool {
    (a - b).abs() <= tol * b.abs().max(1.0)
}

#[test]
fn test_option_pricing() {
    let tree = vec![
        vec![None, None, Some(110.0)],
        vec![None, Some(105.0), Some(100.0)],
        vec![Some(100.0), Some(95.0), Some(90.0)],
        vec![None, Some(85.0), Some(80.0)],
        vec![None, None, Some(70.0)],
    ];
    let strike = 100.0;
    let call_price = TrinomialOptionPricing::price_option(
        &tree,
        move |price: f64| (price - strike).max(0.0),
        trinomial_combine(0.05, 0.3, 0.25, 0.1),
    )
    .unwrap();
    assert!(call_price >= 0.0);
}

#[test]
fn main_test_error_handling() {
    let empty_tree: Vec<Vec<Option<f64>>> = vec![];
    let strike = 100.0;
    assert!(TrinomialOptionPricing::price_option(
        &empty_tree,
        move |price: f64| (price - strike).max(0.0),
        trinomial_combine(0.05, 0.3, 0.25, 0.1),
    )
    .is_err());
}

#[test]
fn test_normal_operation() {
    let (up, down) = moves(0.1);
    let tree = StockPriceTree::new(100.0, 2, up, down);
    assert!(rel_close(tree.get_price(2, 0).unwrap(), 100.0, 1e-12));
    assert!(rel_close(tree.get_price(1, 1).unwrap(), 100.0 * 0.1f64.exp(), 1e-12));
    assert!(rel_close(tree.get_price(3, 1).unwrap(), 100.0 * (-0.1f64).exp(), 1e-12));
}

#[test]
fn test_edge_case_n_zero() {
    let (up, down) = moves(0.05);
    let tree = StockPriceTree::new(50.0, 0, up, down);
    assert_eq!(tree.get_tree().len(), 1);
    assert_eq!(tree.get_tree()[0].len(), 1);
    assert!(rel_close(tree.get_tree()[0][0].unwrap(), 50.0, 1e-12));
}

#[test]
fn test_tree_structure() {
    let (up, down) = moves(0.1);
    let tree = StockPriceTree::new(100.0, 1, up, down);
    assert_eq!(tree.get_tree().len(), 3);
    assert_eq!(tree.get_tree()[0].len(), 2);
}

#[test]
fn lattice_shape_and_band() {
    let n: usize = 3;
    let (up, down) = moves(0.2);
    let tree = StockPriceTree::new(80.0, n, up, down);
    let grid = tree.get_tree();
    assert_eq!(tree.n_steps(), n);
    assert_eq!(grid.len(), 2 * n + 1);
    for row in grid.iter() {
        assert_eq!(row.len(), n + 1);
    }
    for i in 0..grid.len() {
        for j in 0..grid[i].len() {
            let dist = if i <= n { n - i } else { i - n };
            assert_eq!(grid[i][j].is_some(), dist <= j);
        }
    }
}

#[test]
fn root_seeding() {
    for n in [0usize, 1, 2, 5] {
        let (up, down) = moves(0.1);
        let tree = StockPriceTree::new(42.5, n, up, down);
        assert_eq!(tree.get_price(n, 0), Some(42.5));
    }
}

#[test]
fn up_down_factors() {
    let n: usize = 2;
    let (up, down) = moves(0.1);
    let tree = StockPriceTree::new(100.0, n, up, down);
    let want_up = 100.0 * 0.1f64.exp();
    let want_down = 100.0 * (-0.1f64).exp();
    assert!(rel_close(tree.get_price(n - 1, 1).unwrap(), want_up, 1e-9));
    assert!(rel_close(tree.get_price(n + 1, 1).unwrap(), want_down, 1e-9));
}

#[test]
fn invalid_grids_rejected() {
    let strike = 100.0;
    let payoff = move |price: f64| (price - strike).max(0.0);
    let combine = trinomial_combine(0.05, 0.3, 0.25, 0.1);

    let empty: Vec<Vec<Option<f64>>> = vec![];
    let r = TrinomialOptionPricing::price_option(&empty, &payoff, &combine);
    assert!(matches!(r, Err(PricingError::InvalidInput(_))));

    let empty_row: Vec<Vec<Option<f64>>> = vec![vec![]];
    let r = TrinomialOptionPricing::price_option(&empty_row, &payoff, &combine);
    assert!(matches!(r, Err(PricingError::InvalidInput(_))));

    let ragged: Vec<Vec<Option<f64>>> = vec![
        vec![Some(1.0), Some(2.0)],
        vec![Some(1.0)],
    ];
    let r = TrinomialOptionPricing::price_option(&ragged, &payoff, &combine);
    assert!(matches!(r, Err(PricingError::InvalidInput(_))));
}

#[test]
fn end_to_end_example() {
    let tree = vec![
        vec![None, None, None, Some(133.0)],
        vec![None, None, Some(121.0), Some(110.0)],
        vec![None, Some(110.0), Some(100.0), Some(90.9)],
        vec![Some(100.0), Some(90.9), Some(82.6), Some(75.1)],
        vec![None, Some(82.6), Some(75.1), Some(68.3)],
        vec![None, None, Some(68.3), Some(62.1)],
        vec![None, None, None, Some(56.4)],
    ];
    let strike = 100.0;
    let call_price = TrinomialOptionPricing::price_option(
        &tree,
        move |price: f64| (price - strike).max(0.0),
        trinomial_combine(0.05, 0.3, 0.25, 0.1),
    )
    .unwrap();
    assert!(close(call_price, 2.7354, 1e-3));

    let put_price = TrinomialOptionPricing::price_option(
        &tree,
        move |price: f64| (strike - price).max(0.0),
        trinomial_combine(0.05, 0.3, 0.25, 0.1),
    )
    .unwrap();
    assert!(close(put_price, 18.0319, 1e-3));
    assert!(call_price >= 0.0);
    assert!(put_price >= 0.0);
}

#[test]
fn unreachable_root_is_structure_error() {
    // No terminal payoff is defined, so backward induction never reaches
    // the root.
    let tree: Vec<Vec<Option<f64>>> = vec![
        vec![None, None],
        vec![Some(100.0), None],
        vec![None, None],
    ];
    let strike = 100.0;
    let r = TrinomialOptionPricing::price_option(
        &tree,
        move |price: f64| (price - strike).max(0.0),
        trinomial_combine(0.05, 0.3, 0.25, 0.1),
    );
    assert!(matches!(r, Err(PricingError::TreeStructureError(_))));
}

#[test]
fn built_lattice_always_values() {
    // A freshly built lattice has the exact triangular topology backward
    // induction wants, so valuation reaches the root for every step count.
    for n in [0usize, 1, 2, 4, 7] {
        let (up, down) = moves(0.1);
        let tree = StockPriceTree::new(100.0, n, up, down);
        let strike = 95.0;
        let r = TrinomialOptionPricing::price_option(
            tree.get_tree(),
            move |price: f64| (price - strike).max(0.0),
            trinomial_combine(0.02, 0.25, 0.5, 0.1),
        );
        assert!(r.is_ok());
        assert!(r.unwrap() >= 0.0);
    }
}

#[test]
fn get_price_out_of_bounds() {
    let (up, down) = moves(0.1);
    let tree = StockPriceTree::new(100.0, 2, up, down);
    assert_eq!(tree.get_price(2, 1), Some(100.0));
    assert_eq!(tree.get_price(10, 1), None);
    assert_eq!(tree.get_price(1, 7), None);
    assert_eq!(tree.get_price(0, 1), None);
}

#[test]
fn error_messages_carried() {
    let e = PricingError::NumericalError("denominator too small".to_string());
    assert_eq!(e.message(), "denominator too small");
    let e = PricingError::InvalidInput("bad price".to_string());
    assert_eq!(e.message(), "bad price");
    let e = PricingError::TreeStructureError("root unreachable".to_string());
    assert_eq!(e.message(), "root unreachable");
}
