use signal_filters::RollingBuffer;

fn is_full<T: Send + Sized + Sync + Unpin + Copy + Clone + Default + PartialEq>() {}

#[test]
fn rolling_buffer_normal_types() {
    is_full::<RollingBuffer<f32, 2>>();
}

#[test]
fn rolling_buffer_new() {
    let rb = RollingBuffer::<f32, 3>::new();
    assert_eq!(true, rb.is_empty());
    assert_eq!(false, rb.is_full());
    assert_eq!(2, rb.capacity());
    assert_eq!(0, rb.size());
    assert_eq!(0, rb.begin());
    assert_eq!(0, rb.end());
    assert_eq!(None, rb.at(0));
}

#[test]
fn rolling_buffer_size() {
    let mut rb = RollingBuffer::<i32, 5>::new();
    assert_eq!(true, rb.is_empty());
    assert_eq!(4, rb.capacity());

    assert_eq!(0, rb.size());
    rb.push_back(10);
    assert_eq!(1, rb.size());

    rb.push_back(11);
    assert_eq!(2, rb.size());

    rb.push_back(12);
    assert_eq!(3, rb.size());

    rb.push_back(13);
    assert_eq!(4, rb.size());

    // the buffer is full, so size will no longer increase
    rb.push_back(14);
    assert_eq!(4, rb.size());

    rb.push_back(15);
    assert_eq!(4, rb.size());
    assert_eq!(4, rb.capacity());
}

#[test]
fn rolling_buffer_front_back() {
    let mut rb = RollingBuffer::<i32, 5>::new();

    rb.push_back(10);
    assert_eq!(Some(10), rb.front());
    assert_eq!(Some(10), rb.back());
    assert_eq!(Some(10), rb.at(0));
    assert_eq!(None, rb.at(1));
    assert_eq!(None, rb.at(2));
    assert_eq!(None, rb.at(3));
    assert_eq!(None, rb.at(4));
    assert_eq!(None, rb.at(5));
    assert_eq!(None, rb.at(6));

    rb.push_back(11);
    assert_eq!(Some(10), rb.front());
    assert_eq!(Some(11), rb.back());
    assert_eq!(Some(10), rb.at(0));
    assert_eq!(Some(11), rb.at(1));
    assert_eq!(None, rb.at(2));
    assert_eq!(None, rb.at(3));
    assert_eq!(None, rb.at(4));
    assert_eq!(None, rb.at(5));
    assert_eq!(None, rb.at(6));

    rb.push_back(12);
    assert_eq!(Some(10), rb.front());
    assert_eq!(Some(12), rb.back());
    assert_eq!(Some(10), rb.at(0));
    assert_eq!(Some(11), rb.at(1));
    assert_eq!(Some(12), rb.at(2));
    assert_eq!(None, rb.at(3));
    assert_eq!(None, rb.at(4));
    assert_eq!(None, rb.at(5));
    assert_eq!(None, rb.at(6));

    rb.push_back(13);
    assert_eq!(Some(10), rb.front());
    assert_eq!(Some(13), rb.back());
    assert_eq!(Some(10), rb.at(0));
    assert_eq!(Some(11), rb.at(1));
    assert_eq!(Some(12), rb.at(2));
    assert_eq!(Some(13), rb.at(3));
    assert_eq!(None, rb.at(4));
    assert_eq!(None, rb.at(5));
    assert_eq!(None, rb.at(6));

    // now items start dropping off the front
    rb.push_back(14);
    assert_eq!(Some(11), rb.front());
    assert_eq!(Some(14), rb.back());
    assert_eq!(Some(11), rb.at(0));
    assert_eq!(Some(12), rb.at(1));
    assert_eq!(Some(13), rb.at(2));
    assert_eq!(Some(14), rb.at(3));
    assert_eq!(None, rb.at(4));
    assert_eq!(None, rb.at(5));
    assert_eq!(None, rb.at(6));

    rb.push_back(15);
    assert_eq!(Some(12), rb.front());
    assert_eq!(Some(15), rb.back());
    assert_eq!(Some(12), rb.at(0));
    assert_eq!(Some(13), rb.at(1));
    assert_eq!(Some(14), rb.at(2));
    assert_eq!(Some(15), rb.at(3));
    assert_eq!(None, rb.at(4));
    assert_eq!(None, rb.at(5));
    assert_eq!(None, rb.at(6));
}

#[test]
fn rolling_buffer_keeps_the_newest_items() {
    let mut rb = RollingBuffer::<i32, 4>::new();
    for v in 1..=20 {
        rb.push_back(v);
    }
    assert_eq!(3, rb.size());
    assert_eq!(Some(18), rb.at(0));
    assert_eq!(Some(19), rb.at(1));
    assert_eq!(Some(20), rb.at(2));
    assert_eq!(None, rb.at(3));
}

#[test]
fn rolling_buffer_single_cell_holds_nothing() {
    let mut rb = RollingBuffer::<i32, 1>::new();
    rb.push_back(3);
    rb.push_back(4);
    assert!(rb.is_empty());
    assert_eq!(None, rb.back());
}
