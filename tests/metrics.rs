use pathrs_renderer::metrics::{RenderPassMetrics, RendererMetrics};

fn pass(rays: usize, depths: &[usize]) -> RenderPassMetrics {
    let mut m = RenderPassMetrics::default();
    m.ray_count = rays;
    for &d in depths {
        m.add_depth(d);
    }
    m
}

#[test]
fn add_depth_counts_bucket_and_total() {
    let mut m = RenderPassMetrics::default();
    m.add_depth(0);
    m.add_depth(10);
    m.add_depth(10);
    assert_eq!(m.ray_depth_histogram[0], 1);
    assert_eq!(m.ray_depth_histogram[10], 2);
    assert_eq!(m.ray_depth_histogram[5], 0);
    assert_eq!(m.ray_depth_histogram_count, 3);
    assert_eq!(m.ray_count, 0);
}

#[test]
fn combine_adds_every_count() {
    let mut a = pass(5, &[1, 2]);
    let b = pass(7, &[2, 3, 3]);
    a.combine(&b);
    assert_eq!(a.ray_count, 12);
    assert_eq!(a.ray_depth_histogram[1], 1);
    assert_eq!(a.ray_depth_histogram[2], 2);
    assert_eq!(a.ray_depth_histogram[3], 2);
    assert_eq!(a.ray_depth_histogram_count, 5);
}

#[test]
fn combined_of_none_is_zero() {
    let t = RenderPassMetrics::combined(&[]);
    assert_eq!(t.ray_count, 0);
    assert_eq!(t.ray_depth_histogram, [0; 11]);
    assert_eq!(t.ray_depth_histogram_count, 0);
}

#[test]
fn combined_sums_passes() {
    let ps = vec![pass(1, &[0]), pass(2, &[0, 4]), pass(3, &[10])];
    let t = RenderPassMetrics::combined(&ps);
    assert_eq!(t.ray_count, 6);
    assert_eq!(t.ray_depth_histogram[0], 2);
    assert_eq!(t.ray_depth_histogram[4], 1);
    assert_eq!(t.ray_depth_histogram[10], 1);
    assert_eq!(t.ray_depth_histogram_count, 4);
}

#[test]
fn try_combined_reports_overflow() {
    let ps = vec![pass(usize::MAX, &[]), pass(1, &[])];
    assert!(RenderPassMetrics::try_combined(&ps).is_none());
    let ok = RenderPassMetrics::try_combined(&[pass(usize::MAX, &[2])]).unwrap();
    assert_eq!(ok.ray_count, usize::MAX);
    assert_eq!(ok.ray_depth_histogram[2], 1);
}

#[test]
fn window_drops_oldest_when_full() {
    let mut m = RendererMetrics::new(2);
    assert!(m.iter().is_empty());
    m.add_pass(pass(1, &[]));
    m.add_pass(pass(2, &[]));
    m.add_pass(pass(3, &[]));
    let rays: Vec<usize> = m.iter().iter().map(|p| p.ray_count).collect();
    assert_eq!(rays, vec![2, 3]);
    assert_eq!(m.capacity, 2);
}

#[test]
fn window_keeps_all_below_capacity() {
    let mut m = RendererMetrics::new(4);
    for r in 1..=3 {
        m.add_pass(pass(r, &[r]));
    }
    let rays: Vec<usize> = m.iter().iter().map(|p| p.ray_count).collect();
    assert_eq!(rays, vec![1, 2, 3]);
    let t = m.window_totals().unwrap();
    assert_eq!(t.ray_count, 6);
    assert_eq!(t.ray_depth_histogram[1], 1);
    assert_eq!(t.ray_depth_histogram[3], 1);
    assert_eq!(t.ray_depth_histogram_count, 3);
}

#[test]
fn default_pass_has_zero_time() {
    let m = RenderPassMetrics::default();
    assert_eq!(m.render_time, std::time::Duration::ZERO);
    assert_eq!(m.ray_count, 0);
    assert_eq!(m.ray_depth_histogram, [0; 11]);
}
