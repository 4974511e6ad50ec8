use russell_stat::Histogram;

#[test]
fn histogram_new_works() {
    let stations = [0, 1, 2, 3, 4, 5];
    let hist = Histogram::new(&stations);
    assert_eq!(hist.stations(), &[0, 1, 2, 3, 4, 5])
}

#[test]
fn find_station_inside_bins() {
    let stations = [0, 1, 2, 3, 4, 5];
    let hist = Histogram::new(&stations);
    assert_eq!(hist.find_station(0), Some(0));
    assert_eq!(hist.find_station(1), Some(1));
    assert_eq!(hist.find_station(2), Some(2));
    assert_eq!(hist.find_station(3), Some(3));
    assert_eq!(hist.find_station(4), Some(4));
}

#[test]
fn find_station_uneven_bins() {
    let stations = [-10, -3, 7, 20, 21, 100];
    let hist = Histogram::new(&stations);
    assert_eq!(hist.find_station(-10), Some(0));
    assert_eq!(hist.find_station(-4), Some(0));
    assert_eq!(hist.find_station(-3), Some(1));
    assert_eq!(hist.find_station(6), Some(1));
    assert_eq!(hist.find_station(19), Some(2));
    assert_eq!(hist.find_station(20), Some(3));
    assert_eq!(hist.find_station(21), Some(4));
    assert_eq!(hist.find_station(99), Some(4));
}

#[test]
fn find_station_out_of_range() {
    let stations = [0, 1, 2, 3, 4, 5];
    let hist = Histogram::new(&stations);
    assert_eq!(hist.find_station(-1), None);
    assert_eq!(hist.find_station(5), None);
    assert_eq!(hist.find_station(6), None);
    assert_eq!(hist.find_station(i32::MIN), None);
    assert_eq!(hist.find_station(i32::MAX), None);
}

#[test]
fn find_station_too_few_stations() {
    let empty: [i32; 0] = [];
    assert_eq!(Histogram::new(&empty).find_station(0), None);
    let one = [3];
    assert_eq!(Histogram::new(&one).find_station(3), None);
    let two = [3, 8];
    assert_eq!(Histogram::new(&two).find_station(3), Some(0));
    assert_eq!(Histogram::new(&two).find_station(7), Some(0));
    assert_eq!(Histogram::new(&two).find_station(8), None);
}

#[test]
fn find_station_boundaries() {
    let stations = [1, 4, 9, 16, 25, 36, 49];
    let hist = Histogram::new(&stations);
    assert_eq!(hist.find_station(stations[0]), Some(0));
    let n = stations.len();
    assert_eq!(hist.find_station(stations[n - 2]), Some(n - 2));
    assert_eq!(hist.find_station(stations[n - 1] - 1), Some(n - 2));
}

#[test]
fn find_station_repeatable() {
    let stations = [2, 3, 5, 7, 11, 13];
    let hist = Histogram::new(&stations);
    for v in -2..16 {
        assert_eq!(hist.find_station(v), hist.find_station(v));
    }
    let unsorted = [0, 10, 5, 20];
    let other = Histogram::new(&unsorted);
    let first = other.find_station(7);
    assert_eq!(other.find_station(7), first);
    let i = first.unwrap();
    assert!(unsorted[i] <= 7 && 7 < unsorted[i + 1]);
}

#[test]
fn find_station_extreme_values() {
    let stations = [i32::MIN, 0, i32::MAX];
    let hist = Histogram::new(&stations);
    assert_eq!(hist.find_station(i32::MIN), Some(0));
    assert_eq!(hist.find_station(-1), Some(0));
    assert_eq!(hist.find_station(0), Some(1));
    assert_eq!(hist.find_station(i32::MAX - 1), Some(1));
    assert_eq!(hist.find_station(i32::MAX), None);
}
