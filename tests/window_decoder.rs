use fandango::sparsity::{heuristic_active_neurons, learned_active_neurons, PredictorMode, SparsityManager};
use fandango::speculative::{token_accepted, DecodeError, SpeculativeDecoder};
use fandango::telemetry::Monitoring;
use fandango::window::{SlidingWindowCache, WeightRow};

fn row(i: usize) -> WeightRow<f32> {
    WeightRow { neuron_index: i, weights: vec![i as f32; 4], bias: 0.5 }
}

fn resident(w: &SlidingWindowCache<f32>) -> Vec<usize> {
    (0..w.len()).map(|i| w.row_at(i).neuron_index).collect()
}

#[test]
fn window_ignores_resident_index() {
    let mut w = SlidingWindowCache::new(3);
    assert_eq!(w.insert(row(5)), None);
    assert_eq!(w.insert(row(9)), None);
    assert_eq!(w.insert(row(5)), None);
    assert_eq!(w.insert(row(12)), None);
    assert_eq!(w.len(), 3);
    let mut r = resident(&w);
    r.sort();
    assert_eq!(r, vec![5, 9, 12]);
    assert_eq!(resident(&w), vec![5, 9, 12]);
}

#[test]
fn window_evicts_oldest_when_full() {
    let mut w = SlidingWindowCache::new(3);
    for i in [5, 9, 12] {
        w.insert(row(i));
    }
    assert_eq!(w.insert(row(7)), Some(5));
    assert_eq!(resident(&w), vec![9, 12, 7]);
    assert!(!w.contains(5));
    w.resize(1);
    assert_eq!(resident(&w), vec![7]);
}

#[test]
fn window_of_size_zero_holds_nothing() {
    let mut w = SlidingWindowCache::new(0);
    assert_eq!(w.insert(row(1)), None);
    assert_eq!(w.len(), 0);
}

#[test]
fn missing_lists_each_absent_index_once() {
    let mut w = SlidingWindowCache::new(4);
    w.insert(row(2));
    assert_eq!(w.missing(&vec![3, 2, 3, 8]), vec![3, 8]);
}

#[test]
fn heuristic_picks_rows_above_threshold() {
    assert_eq!(heuristic_active_neurons(&vec![vec![100, 600], vec![200, 300], vec![501]]), vec![0, 2]);
    assert_eq!(heuristic_active_neurons(&vec![vec![100], vec![500]]), vec![0, 1]);
    assert_eq!(heuristic_active_neurons(&vec![]), Vec::<usize>::new());
}

#[test]
fn learned_picks_probable_neurons() {
    assert_eq!(learned_active_neurons(&vec![600, 400, 501, 500]), vec![0, 2]);
}

#[test]
fn prediction_falls_back_to_heuristic() {
    let learned: SparsityManager<f32> = SparsityManager::new(4, true);
    let plain: SparsityManager<f32> = SparsityManager::new(4, false);
    assert_eq!(learned.predictor(), PredictorMode::Learned);
    assert_eq!(plain.predictor(), PredictorMode::Heuristic);
    let act = vec![vec![900], vec![0]];
    assert_eq!(learned.predict_active_neurons(&act, Some(vec![100, 900])), vec![1]);
    assert_eq!(learned.predict_active_neurons(&act, None), vec![0]);
    assert_eq!(plain.predict_active_neurons(&act, Some(vec![100, 900])), vec![0]);
}

#[test]
fn update_window_fetches_and_inserts() {
    let mut m: SparsityManager<f32> = SparsityManager::new(2, false);
    assert_eq!(m.rows_to_fetch(&vec![4, 4, 6]), vec![4, 6]);
    m.update_window(vec![row(4), row(6)]);
    assert_eq!(m.rows_to_fetch(&vec![4, 6, 1]), vec![1]);
    m.update_window(vec![row(1)]);
    assert_eq!(resident(m.window()), vec![6, 1]);
}

#[test]
fn window_formula() {
    let d: SpeculativeDecoder<f32> = SpeculativeDecoder::new(3, 4, 3, 500, false);
    assert_eq!(d.optimal_window(), 3);
    let d: SpeculativeDecoder<f32> = SpeculativeDecoder::new(3, 4, 8, 500, false);
    assert_eq!(d.optimal_window(), 3);
    let d: SpeculativeDecoder<f32> = SpeculativeDecoder::new(3, 4, 8, 100, false);
    assert_eq!(d.optimal_window(), 1);
    let d: SpeculativeDecoder<f32> = SpeculativeDecoder::new(3, 4, 2, 1000, false);
    assert_eq!(d.optimal_window(), 2);
    let d: SpeculativeDecoder<f32> = SpeculativeDecoder::new(3, 4, 8, 0, false);
    assert_eq!(d.optimal_window(), 1);
}

const ACCEPT: i32 = 900;
const REJECT: i32 = 100;

#[test]
fn all_rejected_commits_nothing() {
    let d: SpeculativeDecoder<f32> = SpeculativeDecoder::new(3, 4, 3, 500, false);
    let mut m = Monitoring::new();
    let drafts = vec![vec![REJECT]; 4];
    let out = d.decode(drafts, &mut m).unwrap();
    assert!(out.is_empty());
    assert_eq!(m.speculative_accepted, 0);
    assert_eq!(m.speculative_rejected, 1);
}

#[test]
fn stops_at_first_rejection() {
    let d: SpeculativeDecoder<f32> = SpeculativeDecoder::new(3, 4, 3, 500, false);
    let mut m = Monitoring::new();
    let drafts = vec![vec![ACCEPT], vec![ACCEPT + 1], vec![REJECT], vec![ACCEPT + 2]];
    let out = d.decode(drafts, &mut m).unwrap();
    assert_eq!(out, vec![vec![ACCEPT], vec![ACCEPT + 1]]);
    assert_eq!(m.speculative_accepted, 2);
    assert_eq!(m.speculative_rejected, 1);
}

#[test]
fn stops_at_window() {
    let d: SpeculativeDecoder<f32> = SpeculativeDecoder::new(3, 4, 3, 500, false);
    let mut m = Monitoring::new();
    let drafts = vec![vec![ACCEPT, 600], vec![ACCEPT, 700], vec![ACCEPT, 800], vec![ACCEPT, 900]];
    let out = d.decode(drafts, &mut m).unwrap();
    assert_eq!(out.len(), 3);
    assert_eq!(out[2], vec![ACCEPT, 800]);
    assert_eq!(m.speculative_accepted, 3);
    assert_eq!(m.speculative_rejected, 0);
}

#[test]
fn decode_shape_errors() {
    let d: SpeculativeDecoder<f32> = SpeculativeDecoder::new(3, 4, 3, 500, false);
    let mut m = Monitoring::new();
    assert_eq!(d.decode(vec![vec![ACCEPT]; 3], &mut m), Err(DecodeError::ShapeMismatch));
    let ragged = vec![vec![ACCEPT], vec![ACCEPT, ACCEPT], vec![ACCEPT], vec![ACCEPT]];
    assert_eq!(d.decode(ragged, &mut m), Err(DecodeError::ShapeMismatch));
    assert_eq!(d.decode(vec![vec![]; 4], &mut m), Err(DecodeError::VerificationFailure));
    assert_eq!(m.speculative_accepted, 0);
    assert_eq!(m.speculative_rejected, 0);
}

#[test]
fn acceptance_is_mean_above_half() {
    assert!(token_accepted(&vec![501]));
    assert!(!token_accepted(&vec![500]));
    assert!(token_accepted(&vec![0, 1001]));
    assert!(!token_accepted(&vec![0, 1000]));
}

#[test]
fn configure_changes_window() {
    let mut d: SpeculativeDecoder<f32> = SpeculativeDecoder::new(3, 4, 3, 500, false);
    d.configure(2, 9, 5, 500);
    assert_eq!(d.draft_lambda(), 9);
    assert_eq!(d.optimal_window(), 5);
    assert_eq!(d.sparsity_manager().window().window_size(), 2);
}

#[test]
fn resident_rows_keep_their_weights() {
    let mut w = SlidingWindowCache::new(2);
    w.insert(WeightRow { neuron_index: 3, weights: vec![1.5, -2.0], bias: 0.25 });
    w.insert(WeightRow { neuron_index: 3, weights: vec![9.0, 9.0], bias: 9.0 });
    let r = w.row_at(0);
    assert_eq!(r.weights, vec![1.5, -2.0]);
    assert_eq!(r.bias, 0.25);
}
