use cgraph::mpmc::sync_channel;
use cgraph::nodes::GenericComputeNode_1_1;

#[test]
fn make_pipeline() {
    let (_buf1, _tx1, rx1) = sync_channel::<Vec<u8>>(16);
    let (_buf2, tx2, _rx2) = sync_channel::<Vec<u16>>(16);
    let n = GenericComputeNode_1_1::new(
        "Test".into(),
        rx1,
        tx2,
        |i1: Option<Vec<u8>>| -> Option<Vec<u16>> {
            let _ = i1;
            Some(Vec::new())
        },
    );

    let _n2 = n.clone();
}
