use signal_filters::CircularBuffer;

fn is_normal<T: Sized + Send + Sync + Unpin>() {}

#[test]
fn circular_buffer_normal_types() {
    is_normal::<CircularBuffer<f32, 2>>();
}

#[test]
fn circular_buffer_new() {
    let cb = CircularBuffer::<f32, 3>::new();
    assert_eq!(true, cb.is_empty());
    assert_eq!(false, cb.is_full());
    assert_eq!(2, cb.capacity());
    assert_eq!(0, cb.size());
    assert_eq!(0, cb.begin());
    assert_eq!(0, cb.end());
    assert_eq!(None, cb.at(0));
}

#[test]
fn circular_buffer_size() {
    let mut cb = CircularBuffer::<i32, 5>::new();
    assert_eq!(true, cb.is_empty());
    assert_eq!(4, cb.capacity());
    assert_eq!(None, cb.pop_front());

    assert_eq!(0, cb.size());
    cb.push_back(10);
    assert_eq!(1, cb.size());

    cb.push_back(11);
    assert_eq!(2, cb.size());

    cb.push_back(12);
    assert_eq!(3, cb.size());

    cb.push_back(13);
    assert_eq!(4, cb.size());

    // the buffer is full, so size will no longer increase
    cb.push_back(14);
    assert_eq!(4, cb.size());

    cb.push_back(15);
    assert_eq!(4, cb.size());
    assert_eq!(4, cb.capacity());
}

#[test]
fn circular_buffer_front_back() {
    let mut cb = CircularBuffer::<i32, 5>::new();
    let mut success: bool;

    success = cb.push_back(10);
    assert_eq!(true, success);
    assert_eq!(Some(10), cb.front());
    assert_eq!(Some(10), cb.back());
    assert_eq!(Some(10), cb.at(0));
    assert_eq!(None, cb.at(1));
    assert_eq!(None, cb.at(2));
    assert_eq!(None, cb.at(3));
    assert_eq!(None, cb.at(4));
    assert_eq!(None, cb.at(5));
    assert_eq!(None, cb.at(6));

    success = cb.push_back(11);
    assert_eq!(true, success);
    assert_eq!(Some(10), cb.front());
    assert_eq!(Some(11), cb.back());
    assert_eq!(Some(10), cb.at(0));
    assert_eq!(Some(11), cb.at(1));
    assert_eq!(None, cb.at(2));
    assert_eq!(None, cb.at(3));
    assert_eq!(None, cb.at(4));
    assert_eq!(None, cb.at(5));
    assert_eq!(None, cb.at(6));

    success = cb.push_back(12);
    assert_eq!(true, success);
    assert_eq!(Some(10), cb.front());
    assert_eq!(Some(12), cb.back());
    assert_eq!(Some(10), cb.at(0));
    assert_eq!(Some(11), cb.at(1));
    assert_eq!(Some(12), cb.at(2));
    assert_eq!(None, cb.at(3));
    assert_eq!(None, cb.at(4));
    assert_eq!(None, cb.at(5));
    assert_eq!(None, cb.at(6));

    success = cb.push_back(13);
    assert_eq!(true, success);
    assert_eq!(Some(10), cb.front());
    assert_eq!(Some(13), cb.back());
    assert_eq!(Some(10), cb.at(0));
    assert_eq!(Some(11), cb.at(1));
    assert_eq!(Some(12), cb.at(2));
    assert_eq!(Some(13), cb.at(3));
    assert_eq!(None, cb.at(4));
    assert_eq!(None, cb.at(5));
    assert_eq!(None, cb.at(6));

    // now buffer is full, so pushing items will fail
    success = cb.push_back(14);
    assert_eq!(false, success);
    assert_eq!(Some(10), cb.front());
    assert_eq!(Some(13), cb.back());
    assert_eq!(Some(10), cb.at(0));
    assert_eq!(Some(11), cb.at(1));
    assert_eq!(Some(12), cb.at(2));
    assert_eq!(Some(13), cb.at(3));
    assert_eq!(None, cb.at(4));
    assert_eq!(None, cb.at(5));
    assert_eq!(None, cb.at(6));

    assert_eq!(Some(10), cb.pop_front());
    cb.push_back(15);
    assert_eq!(Some(11), cb.front());
    assert_eq!(Some(15), cb.back());
    assert_eq!(Some(11), cb.at(0));
    assert_eq!(Some(12), cb.at(1));
    assert_eq!(Some(13), cb.at(2));
    assert_eq!(Some(15), cb.at(3));
    assert_eq!(None, cb.at(4));
    assert_eq!(None, cb.at(5));
    assert_eq!(None, cb.at(6));
}

#[test]
fn circular_buffer_wraps_around() {
    // begin and end both travel round the ring while the contents stay FIFO
    let mut cb = CircularBuffer::<i32, 3>::new();
    for round in 0..10 {
        assert!(cb.push_back(round));
        assert!(cb.push_back(round + 100));
        assert_eq!(false, cb.push_back(-1));
        assert_eq!(Some(round), cb.front());
        assert_eq!(Some(round + 100), cb.back());
        assert_eq!(Some(round), cb.pop_front());
        assert_eq!(Some(round + 100), cb.pop_front());
        assert_eq!(None, cb.pop_front());
        assert!(cb.begin() < 3 && cb.end() < 3);
    }
}

#[test]
fn circular_buffer_single_cell_holds_nothing() {
    let mut cb = CircularBuffer::<i32, 1>::new();
    assert_eq!(0, cb.capacity());
    assert!(cb.is_full());
    assert_eq!(false, cb.push_back(7));
    assert_eq!(None, cb.front());
    assert_eq!(None, cb.back());
}

#[test]
fn circular_buffer_default_is_empty() {
    let cb: CircularBuffer<i32, 4> = Default::default();
    assert!(cb.is_empty());
    assert_eq!(None, cb.at(0));
}
