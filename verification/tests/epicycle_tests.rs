use epicycles::epicycle::{clamp_wave_count, extract_components, FrequencyComponent};

fn spectrum(n: usize) -> Vec<u32> {
    (0..n as u32).map(|k| 100 + k).collect()
}

fn frequencies(list: &[FrequencyComponent<u32>]) -> Vec<i64> {
    list.iter().map(|c| c.frequency).collect()
}

#[test]
fn five_waves_of_sixteen_bins() {
    let list = extract_components(&spectrum(16), 5);
    assert_eq!(frequencies(&list), vec![0, 1, -1, 2, -2]);
    assert_eq!(
        list,
        vec![
            FrequencyComponent { frequency: 0, coefficient: 100 },
            FrequencyComponent { frequency: 1, coefficient: 101 },
            FrequencyComponent { frequency: -1, coefficient: 115 },
            FrequencyComponent { frequency: 2, coefficient: 102 },
            FrequencyComponent { frequency: -2, coefficient: 114 },
        ]
    );
}

#[test]
fn too_many_waves_are_clamped() {
    let s = spectrum(6);
    let all = extract_components(&s, 6);
    assert_eq!(extract_components(&s, 7), all);
    assert_eq!(extract_components(&s, 1000), all);
    assert_eq!(extract_components(&s, usize::MAX), all);
    assert_eq!(frequencies(&all), vec![0, 1, -1, 2, -2, 3, -3]);
    // With an even number of bins the last pair reads the middle bin twice.
    assert_eq!(all[5].coefficient, 103);
    assert_eq!(all[6].coefficient, 103);
}

#[test]
fn fewer_waves_give_a_prefix() {
    let s = spectrum(32);
    let long = extract_components(&s, 21);
    let mut w: usize = 0;
    while w <= 21 {
        let short = extract_components(&s, w);
        assert_eq!(short.len(), 2 * (w / 2) + 1);
        assert_eq!(short[..], long[..short.len()]);
        w += 1;
    }
}

#[test]
fn zero_or_one_wave_gives_the_offset_only() {
    let s = spectrum(8);
    assert_eq!(
        extract_components(&s, 0),
        vec![FrequencyComponent { frequency: 0, coefficient: 100 }]
    );
    assert_eq!(
        extract_components(&s, 1),
        vec![FrequencyComponent { frequency: 0, coefficient: 100 }]
    );
}

#[test]
fn a_single_bin_gives_the_offset_only() {
    let s = spectrum(1);
    assert_eq!(
        extract_components(&s, 201),
        vec![FrequencyComponent { frequency: 0, coefficient: 100 }]
    );
}

#[test]
fn odd_number_of_bins() {
    let list = extract_components(&spectrum(5), 5);
    assert_eq!(frequencies(&list), vec![0, 1, -1, 2, -2]);
    assert_eq!(list[3].coefficient, 102);
    assert_eq!(list[4].coefficient, 103);
}

#[test]
fn clamp_wave_count_takes_the_smaller() {
    assert_eq!(clamp_wave_count(201, 10240), 201);
    assert_eq!(clamp_wave_count(201, 100), 100);
    assert_eq!(clamp_wave_count(7, 7), 7);
    assert_eq!(clamp_wave_count(0, 7), 0);
}
