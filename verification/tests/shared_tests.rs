use ros::shared::{align_down, align_up, fmt_bytes};

#[test]
fn align_down_rounds_to_page() {
    assert_eq!(align_down(0x1234), 0x1000);
    assert_eq!(align_down(0x1000), 0x1000);
}

#[test]
fn align_up_rounds_to_page() {
    assert_eq!(align_up(0x1234), 0x2000);
    assert_eq!(align_up(0x1000), 0x1000);
    assert_eq!(align_up(0), 0);
}

#[test]
fn fmt_bytes_picks_unit() {
    assert_eq!(fmt_bytes(512), (512, "B"));
    assert_eq!(fmt_bytes(2048), (2, "KiB"));
    assert_eq!(fmt_bytes(3 * 0x100000), (3, "MiB"));
}
