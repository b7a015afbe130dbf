use myaku::series::SeriesGroup;

#[test]
fn series_group_resize() {
    let mut sg: SeriesGroup<f32> = SeriesGroup::new("Net", 2, 5);
    sg.resize(4, 5);
    assert_eq!(sg.series.len(), 4);
    sg.resize(1, 5);
    assert_eq!(sg.series.len(), 1);
}

#[test]
fn series_labels_follow_index() {
    let mut sg: SeriesGroup<f32> = SeriesGroup::new("Core", 2, 5);
    assert_eq!(sg.series[0].0, "Core 0");
    assert_eq!(sg.series[1].0, "Core 1");
    sg.resize(12, 5);
    assert_eq!(sg.series[11].0, "Core 11");
    assert_eq!(sg.label, "Core");
}

#[test]
fn push_series_fills_each_series() {
    let mut sg: SeriesGroup<f32> = SeriesGroup::new("CPU", 4, 10);
    sg.push_series(&[10.0, 20.0, 30.0, 40.0]);
    assert_eq!(sg.series.len(), 4);
    assert_eq!(sg.series[0].1.latest(), Some(10.0));
    assert_eq!(sg.series[3].1.latest(), Some(40.0));
    assert!(sg.summary.is_empty());
}

#[test]
fn push_series_with_fewer_values() {
    let mut sg: SeriesGroup<u64> = SeriesGroup::new("Disk", 3, 2);
    sg.push_series(&[1, 2]);
    sg.push_series(&[3]);
    assert_eq!(sg.series[0].1.values(), vec![1, 3]);
    assert_eq!(sg.series[1].1.values(), vec![2]);
    assert!(sg.series[2].1.is_empty());
}

#[test]
fn resize_keeps_existing_history() {
    let mut sg: SeriesGroup<u64> = SeriesGroup::new("Net", 2, 3);
    sg.push_series(&[7, 8]);
    sg.resize(3, 3);
    assert_eq!(sg.series[0].1.values(), vec![7]);
    assert_eq!(sg.series[1].1.values(), vec![8]);
    assert!(sg.series[2].1.is_empty());
    assert_eq!(sg.series[2].1.capacity(), 3);
}
