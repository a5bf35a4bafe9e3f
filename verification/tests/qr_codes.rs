use local_share::qr::{generate_ascii_qr, generate_qr_image};

#[test]
fn qr_image_shape_and_quiet_zone() {
    let (w, h, buf) = generate_qr_image("http://192.168.1.2:3000").unwrap();
    assert_eq!(w, h);
    assert_eq!(buf.len(), (w * h * 3) as usize);
    // the quiet zone is 2 modules of 4 pixels: the top-left corner is white
    assert_eq!(buf[0], 255);
    assert_eq!(buf[1], 255);
    assert_eq!(buf[2], 255);
}

#[test]
fn qr_image_matches_the_module_matrix() {
    let content = "local-share-test";
    let (w, _h, buf) = generate_qr_image(content).unwrap();
    let code = qrcode::QrCode::new(content).unwrap();
    let modules = code.to_colors();
    let side = code.width();
    assert_eq!(w as usize, (side + 4) * 4);
    let width = w as usize;
    // every module maps to a 4x4 block offset by the 2-module quiet zone
    for my in 0..side {
        for mx in 0..side {
            let dark = modules[my * side + mx] != qrcode::Color::Light;
            let px = (mx + 2) * 4;
            let py = (my + 2) * 4;
            let q = 3 * (py * width + px);
            let expected = if dark { 0 } else { 255 };
            assert_eq!(buf[q], expected);
            assert_eq!(buf[q + 1], expected);
            assert_eq!(buf[q + 2], expected);
        }
    }
    // the top-left finder pattern's corner module is dark
    let q = 3 * ((2 * 4) * width + (2 * 4));
    assert_eq!(buf[q], 0);
}

#[test]
fn qr_ascii_matches_the_crate_renderer() {
    let content = "http://10.0.0.1:3000";
    let ours = generate_ascii_qr(content).unwrap();
    let code = qrcode::QrCode::new(content).unwrap();
    let theirs = code.render::<char>().quiet_zone(true).module_dimensions(2, 1).build();
    assert_eq!(ours, theirs);
    assert!(!ours.is_empty());
}

#[test]
fn qr_rejects_oversized_content() {
    // far beyond the capacity of version 40
    let content = "x".repeat(8000);
    assert!(generate_qr_image(&content).is_err());
    assert!(generate_ascii_qr(&content).is_err());
}
