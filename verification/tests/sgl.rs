//! Lists of memory that a message is taken from.

use open_rdma_driver::device::sgl::{PayloadInfo, SGList, SliceInfo};
use open_rdma_driver::device::work::DescSge;
use open_rdma_driver::types::Key;

fn list(elements: &[(u64, u32)]) -> SGList {
    SGList::from_sges(elements.iter().map(|e| DescSge { addr: e.0, len: e.1, key: Key::new(0_u32) }).collect())
}

#[test]
fn test_helper_cut_from_sgl() {
    // Here we don't care the va boundary
    // test: has [1000,0,0,0], request 1000
    {
        let mut sgl = list(&[(0x1000, 1000)]);
        let payload = sgl.cut(1000).unwrap();
        assert_eq!(payload.get_length(), 1000);
        assert_eq!(sgl.data[0].len, 0);
        assert_eq!(sgl.cur_level, 1);
    }

    // test has [1000,0,0,0], request 1000
    {
        let mut sgl = list(&[(0x1000, 1000)]);
        let payload = sgl.cut(900).unwrap();
        assert_eq!(payload.get_length(), 900);
        assert_eq!(sgl.data[0].len, 100);
        assert_eq!(sgl.cur_level, 0);
    }

    // test has [1024,0,0,0], request 512,512
    {
        let mut sgl = list(&[(0x1000, 1024)]);
        let payload1 = sgl.cut(512).unwrap();
        let payload2 = sgl.cut(512).unwrap();
        assert_eq!(payload1.get_length(), 512);
        assert_eq!(payload2.get_length(), 512);
        assert_eq!(sgl.data[0].len, 0);
        assert_eq!(sgl.cur_level, 1);
        assert_eq!(payload1.get_sg_list().first().unwrap().data as u64, 0x1000);
        assert_eq!(payload2.get_sg_list().first().unwrap().data as u64, 0x1000 + 512);
    }

    // test has [1024,2048,1124,100], require [100,2048,2048,100]
    {
        let mut sgl = list(&[(0x1000, 1024), (0x3000, 2048), (0x6000, 1124), (0x8000, 100)]);

        let payload0 = sgl.cut(100).unwrap();
        let payload1 = sgl.cut(2048).unwrap();
        let payload2 = sgl.cut(2048).unwrap();
        let payload3 = sgl.cut(100).unwrap();
        assert_eq!(payload0.get_length(), 100);
        assert_eq!(payload1.get_length(), 2048);
        assert_eq!(payload2.get_length(), 2048);
        assert_eq!(payload3.get_length(), 100);
        assert_eq!(sgl.data[0].len, 0);
        assert_eq!(sgl.data[1].len, 0);
        assert_eq!(sgl.data[2].len, 0);
        assert_eq!(sgl.data[3].len, 0);
    }
}

#[test]
fn test_helper_cut_sgl_all() {
    let mut sgl = list(&[(0x1000, 1024), (0x2000, 1024), (0x3000, 1024), (0x4000, 1024)]);
    let payload = sgl.cut_all_levels();
    assert_eq!(sgl.data[0].len, 0);
    assert_eq!(sgl.data[1].len, 0);
    assert_eq!(sgl.data[2].len, 0);
    assert_eq!(sgl.data[3].len, 0);
    assert_eq!(payload.get_length(), 4096);
}

#[test]
fn what_is_cut_and_what_is_left_make_the_whole() {
    let mut sgl = list(&[(0x1000, 10), (0x2000, 20), (0x3000, 30)]);
    assert_eq!(sgl.get_total_length(), 60);
    let payload = sgl.cut(15).unwrap();
    assert_eq!(
        payload.get_sg_list(),
        &vec![SliceInfo { data: 0x1000, len: 10 }, SliceInfo { data: 0x2000, len: 5 }]
    );
    assert_eq!(sgl.get_total_length(), 45);
    let rest = sgl.cut_all_levels();
    assert_eq!(
        rest.get_sg_list(),
        &vec![SliceInfo { data: 0x2005, len: 15 }, SliceInfo { data: 0x3000, len: 30 }]
    );
    assert_eq!(sgl.get_total_length(), 0);
}

#[test]
fn more_than_there_is_cannot_be_cut() {
    let mut sgl = SGList::new_from_sge(DescSge { addr: 0x1000, len: 8, key: Key::new(1) });
    assert!(sgl.cut(9).is_none());
    assert!(sgl.cut(8).is_some());
    assert_eq!(PayloadInfo::new().get_length(), 0);
    let sgl = list(&[(7, 3)]);
    let payload = PayloadInfo::from_sgl(&sgl, 3);
    assert_eq!((payload.get_length(), payload.get_sg_list().len()), (3, 1));
}
