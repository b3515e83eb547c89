use asignacion_estaciones::generate::{
    generate_data, MAX_ESTACIONES, MAX_HABITANTES, MIN_ESTACIONES, MIN_HABITANTES,
};
use asignacion_estaciones::partition::partition;

#[test]
fn limits_are_two_to_five_stations_and_one_to_five_hundred_inhabitants() {
    assert_eq!(MIN_ESTACIONES, 2);
    assert_eq!(MAX_ESTACIONES, 5);
    assert_eq!(MIN_HABITANTES, 1);
    assert_eq!(MAX_HABITANTES, 500);
}

#[test]
fn generated_instances_stay_within_their_limits() {
    for n in 0..60 {
        let data = generate_data(n);
        assert!(data.estaciones >= 2 && data.estaciones <= 5);
        assert_eq!(data.habitantes.len(), n as usize);
        assert!(data.habitantes.iter().all(|h| *h >= 1 && *h <= 500));
    }
}

#[test]
fn no_neighbourhoods_for_a_count_that_is_not_positive() {
    assert!(generate_data(0).habitantes.is_empty());
    assert!(generate_data(-5).habitantes.is_empty());
}

#[test]
fn generated_inhabitants_vary() {
    let data = generate_data(400);
    let first = data.habitantes[0];
    assert!(data.habitantes.iter().any(|h| *h != first));
    assert!(data.habitantes.iter().any(|h| *h > 1));
    assert!(data.habitantes.iter().any(|h| *h < 500));
}

#[test]
fn generated_station_counts_vary() {
    let mut seen_low = false;
    let mut seen_high = false;
    for _ in 0..400 {
        let e = generate_data(0).estaciones;
        if e == 2 {
            seen_low = true;
        }
        if e == 5 {
            seen_high = true;
        }
    }
    assert!(seen_low && seen_high);
}

#[test]
fn generated_instances_can_always_be_partitioned() {
    for n in 2..40 {
        let data = generate_data(n);
        let total: i128 = data.habitantes.iter().map(|h| *h as i128).sum();
        let r = partition(data.habitantes, data.estaciones).unwrap();
        assert_eq!(r.bins.len(), data.estaciones as usize);
        let placed: i128 = r
            .bins
            .iter()
            .map(|b| b.iter().map(|w| *w as i128).sum::<i128>())
            .sum();
        assert_eq!(placed, total);
    }
}
