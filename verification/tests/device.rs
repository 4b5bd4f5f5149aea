use xenstore_win::device::{EnumStep, InterfaceCursor, Listing};

#[test]
fn cursor_walks_and_skips_large_details() {
    let mut c = InterfaceCursor::new();
    assert_eq!(c.index(), 0);
    assert_eq!(c.step(Listing::Listed { detail_len: 100 }, 8192), EnumStep::Fetch);
    assert_eq!(c.index(), 1);
    assert_eq!(c.step(Listing::Listed { detail_len: 8193 }, 8192), EnumStep::Skip);
    assert_eq!(c.index(), 2);
    assert_eq!(c.step(Listing::Listed { detail_len: 8192 }, 8192), EnumStep::Fetch);
    assert_eq!(c.step(Listing::End, 8192), EnumStep::Finish);
    assert_eq!(c.index(), 3);
}
