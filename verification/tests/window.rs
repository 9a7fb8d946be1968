//! Which packets of a message have been received.

use open_rdma_driver::types::Psn;
use open_rdma_driver::window::SlidingWindow;

#[test]
fn test_sliding_window() {
    let start = 0;
    let n = 10;

    // test miss one
    for miss in 1..n - 1 {
        let mut window = SlidingWindow::new(Psn::new(start), n);
        for i in 0..n {
            if i != miss {
                window.insert((Psn::new(i), Psn::new(i)));
            }
        }
        assert!(!window.is_complete());
        assert!(window.is_out_of_order());
        window.insert((Psn::new(miss), Psn::new(miss)));
        assert!(window.is_complete(), "miss={}", miss);
        assert!(!window.is_out_of_order());
    }
    // inseert same psn
    {
        let mut window = SlidingWindow::new(Psn::new(start), n);
        for _ in 0..n {
            window.insert((Psn::new(0), Psn::new(0)));
        }
        assert!(!window.is_complete());
    }

    // insert range
    {
        let mut window = SlidingWindow::new(Psn::new(50), 20);
        window.insert((Psn::new(50), Psn::new(68)));
        assert!(!window.is_complete());
        assert!(!window.is_out_of_order());
        window.insert((Psn::new(66), Psn::new(69)));
        assert!(window.is_complete());
    }

    // insert out of order range
    {
        let mut window = SlidingWindow::new(Psn::new(50), 20);
        window.insert((Psn::new(50), Psn::new(59)));
        assert!(!window.is_complete());
        assert!(!window.is_out_of_order());
        window.insert((Psn::new(59), Psn::new(62)));
        assert!(!window.is_complete());
        assert!(!window.is_out_of_order());
        window.insert((Psn::new(65), Psn::new(68)));
        assert!(!window.is_complete());
        assert!(window.is_out_of_order());
        window.insert((Psn::new(50), Psn::new(64)));
        assert!(!window.is_complete());
        assert!(!window.is_out_of_order());
        window.insert((Psn::new(62), Psn::new(69)));
        assert!(window.is_complete());
    }

    // test cross border
    {
        let base = Psn::new(Psn::MAX_VALUE - 10);
        let mut window = SlidingWindow::new(base, 20);
        window.insert((base, base.wrapping_add(9))); //[0,9]
        assert!(!window.is_complete());
        assert!(!window.is_out_of_order());
        window.insert((base.wrapping_add(9), base.wrapping_add(12))); // [9,12]
        assert!(!window.is_complete());
        assert!(!window.is_out_of_order());
        window.insert((base.wrapping_add(15), base.wrapping_add(18))); // [15,18]
        assert!(!window.is_complete());
        assert!(window.is_out_of_order());
        window.insert((base, base.wrapping_add(14))); // [0,14]
        assert!(!window.is_complete());
        assert!(!window.is_out_of_order());
        window.insert((base.wrapping_add(12), base.wrapping_add(19))); // [12,19]
        assert!(window.is_complete());
    }
    // test outside range
    {
        let mut window = SlidingWindow::new(Psn::new(start), n);
        window.insert((Psn::new(start), Psn::new(start)));
        assert_eq!(window.get_intervals_len(), 1);
        window.insert((Psn::new(start), Psn::new(Psn::MAX_VALUE))); // not in range
        assert_eq!(window.get_intervals_len(), 1);
        window.insert((Psn::new(Psn::MAX_VALUE), Psn::new(start))); // not in range
        assert_eq!(window.get_intervals_len(), 1);
    }
}

#[test]
fn order_of_arrival_does_not_matter() {
    let orders: [[u32; 5]; 3] = [[0, 1, 2, 3, 4], [4, 2, 0, 3, 1], [3, 3, 1, 4, 0]];
    for (k, order) in orders.iter().enumerate() {
        let mut window = SlidingWindow::new(Psn::new(0xff_fffe), 5);
        for i in order {
            let psn = Psn::new(0xff_fffe).wrapping_add(*i);
            window.insert((psn, psn));
        }
        assert_eq!(window.is_complete(), k < 2);
    }
}

#[test]
fn recovery_starts_after_the_packets_received_in_order() {
    let mut window = SlidingWindow::new(Psn::new(100), 10);
    assert_eq!(window.last_psn(), Psn::new(109));
    assert_eq!(window.try_get_recover_psn(), None);
    window.insert((Psn::new(100), Psn::new(103)));
    assert_eq!(window.try_get_recover_psn(), Some(Psn::new(104)));
    window.insert((Psn::new(106), Psn::new(107)));
    assert_eq!(window.try_get_recover_psn(), None);
}

#[test]
fn inserting_adds_the_range_in_its_longest_runs() {
    let mut window = SlidingWindow::new(Psn::new(0xff_fffe), 20);
    let mut received = [false; 20];
    for (from, to) in [(4, 5), (12, 14), (8, 8), (6, 7), (0, 1), (9, 13), (4, 8), (16, 18), (2, 3)] {
        let range = (Psn::new(0xff_fffe).wrapping_add(from), Psn::new(0xff_fffe).wrapping_add(to));
        window.insert(range);
        for x in from..=to {
            received[x as usize] = true;
        }
        let runs = (0..20).filter(|x| received[*x] && (*x == 0 || !received[*x - 1])).count();
        assert_eq!(window.get_intervals_len(), runs);
        window.insert(range);
        assert_eq!(window.get_intervals_len(), runs);
    }
    assert_eq!(window.get_intervals_len(), 2);
}
