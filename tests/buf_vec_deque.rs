use std::collections::VecDeque;

use bytes::Bytes;
use httpbis::buf_vec_deque::BufVecDeque;

#[test]
fn back_mut() {
    let mut d = BufVecDeque::<VecDeque<u8>>::new();
    d.push_back(VecDeque::from(vec![3, 4]));
    d.push_back(VecDeque::from(vec![4, 6]));
    assert_eq!(4, d.remaining());
    let mut b = d.back_mut().unwrap();
    b.back.push_back(7);
    b.release(&mut d);
    assert_eq!(5, d.remaining());
    let mut b = d.back_mut().unwrap();
    b.back.pop_back();
    b.release(&mut d);
    assert_eq!(4, d.remaining());
    let mut b = d.back_mut().unwrap();
    b.back.pop_back();
    b.release(&mut d);
    let mut b = d.back_mut().unwrap();
    b.back.pop_back();
    b.release(&mut d);
    assert_eq!(2, d.remaining());
}

#[test]
fn pop_back() {
    let mut d = BufVecDeque::<VecDeque<u8>>::new();
    d.push_back(VecDeque::from(vec![3, 4]));
    d.push_back(VecDeque::from(vec![4, 6, 7]));

    d.pop_back().unwrap();
    assert_eq!(2, d.remaining());
}

fn content(d: BufVecDeque<VecDeque<u8>>) -> Vec<u8> {
    d.into_chunks().into_iter().flatten().collect()
}

#[test]
fn empty_queue_has_no_bytes() {
    let mut d = BufVecDeque::<VecDeque<u8>>::new();
    assert_eq!(0, d.len());
    assert!(d.pop_back().is_none());
    assert!(d.back_mut().is_none());
    assert!(d.pop_front_max(10).is_none());
}

#[test]
fn advance_across_chunks() {
    let mut d = BufVecDeque::<VecDeque<u8>>::new();
    d.push_back(VecDeque::from(vec![1, 2]));
    d.push_back(VecDeque::new());
    d.push_back(VecDeque::from(vec![3, 4, 5]));
    d.advance(3);
    assert_eq!(2, d.len());
    assert_eq!(vec![4, 5], content(d));
}

#[test]
fn advance_within_first_chunk() {
    let mut d = BufVecDeque::<VecDeque<u8>>::new();
    d.push_back(VecDeque::from(vec![1, 2, 3]));
    d.push_back(VecDeque::from(vec![4]));
    d.advance(1);
    assert_eq!(3, d.len());
    assert_eq!(vec![2, 3, 4], content(d));
}

#[test]
fn from_deque_counts_all_chunks() {
    let chunks = VecDeque::from(vec![VecDeque::from(vec![1u8, 2]), VecDeque::from(vec![3u8])]);
    let d = BufVecDeque::from_deque(chunks).unwrap();
    assert_eq!(3, d.len());
}

#[test]
fn pop_front_max_splits_long_chunk() {
    let mut d = BufVecDeque::<VecDeque<u8>>::new();
    d.push_back(VecDeque::from(vec![1, 2, 3, 4]));
    d.push_back(VecDeque::from(vec![5]));
    let head = d.pop_front_max(3).unwrap();
    assert_eq!(vec![1, 2, 3], head.into_iter().collect::<Vec<u8>>());
    assert_eq!(2, d.len());
    let head = d.pop_front_max(3).unwrap();
    assert_eq!(vec![4], head.into_iter().collect::<Vec<u8>>());
    assert_eq!(vec![5], content(d));
}

#[test]
fn bytes_chunks_split_and_advance() {
    let mut d = BufVecDeque::<Bytes>::new();
    d.push_back(Bytes::from(vec![1, 2, 3, 4, 5]));
    d.push_back(Bytes::from(vec![6, 7]));
    assert_eq!(7, d.len());
    let head = d.pop_front_max(2).unwrap();
    assert_eq!(&head[..], &[1, 2]);
    d.advance(2);
    assert_eq!(3, d.len());
    let rest: Vec<Vec<u8>> = d.into_chunks().into_iter().map(|b| b.to_vec()).collect();
    assert_eq!(vec![vec![5], vec![6, 7]], rest);
}

#[test]
fn total_len_tracks_mixed_operations() {
    let mut d = BufVecDeque::<VecDeque<u8>>::new();
    let mut expected: usize = 0;
    for i in 0..20u8 {
        let chunk: VecDeque<u8> = (0..(i % 5)).collect();
        expected += chunk.len();
        d.push_back(chunk);
        if i % 3 == 0 {
            let mut b = d.back_mut().unwrap();
            b.back.push_back(i);
            b.back.push_back(i);
            expected += 2;
            b.release(&mut d);
        }
        if i % 4 == 0 {
            let mut b = d.back_mut().unwrap();
            if b.back.pop_front().is_some() {
                expected -= 1;
            }
            b.release(&mut d);
        }
        if i % 7 == 6 {
            expected -= d.pop_back().unwrap().len();
        }
        assert_eq!(expected, d.len());
    }
    let total: usize = d.into_chunks().iter().map(|c| c.len()).sum();
    assert_eq!(expected, total);
}

#[test]
fn bytes_skips_empty_chunks() {
    let mut d = BufVecDeque::<VecDeque<u8>>::new();
    d.push_back(VecDeque::new());
    d.push_back(VecDeque::from(vec![7, 8]));
    d.push_back(VecDeque::from(vec![9]));
    assert_eq!(&[7u8, 8][..], d.bytes());
    let e = BufVecDeque::<VecDeque<u8>>::new();
    assert!(e.bytes().is_empty());
}

#[test]
fn bytes_of_advanced_bytes_chunk() {
    let mut d = BufVecDeque::<Bytes>::new();
    d.push_back(Bytes::from(vec![1, 2, 3]));
    d.push_back(Bytes::from(vec![4]));
    d.advance(1);
    assert_eq!(&[2u8, 3][..], d.bytes());
    d.advance(2);
    assert_eq!(&[4u8][..], d.bytes());
}
