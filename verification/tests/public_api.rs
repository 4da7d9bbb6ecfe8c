use std::sync::Arc;

use ratex::font_loader::FontBytes;

#[test]
fn font_bytes_remains_a_public_arc_vec_alias() {
    let bytes: FontBytes = Arc::new(vec![0, 1, 2, 3]);
    assert_eq!(bytes.as_slice(), [0, 1, 2, 3]);
}
