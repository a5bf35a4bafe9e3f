//! QR connection helpers: the module matrix comes from the qrcode crate
//! behind a trusted wrapper; the raster rendering of it is verified pixel by
//! pixel.

use vstd::prelude::*;

verus! {

/// The QR module matrix encoded for `s`, as the qrcode crate computes it at
/// the fixed (medium) error-correction level: side length and dark flags in
/// row-major order; `None` when the data cannot be encoded.
pub uninterp spec fn qr_modules_of(s: Seq<char>) -> Option<(nat, Seq<bool>)>;

/// Relies on qrcode's QrCode::new, QrCode::width and QrCode::to_colors: the
/// matrix is a function of the input bytes alone; its side length is a normal
/// QR version's, between 21 and 177 modules, and it holds width-squared
/// entries.
#[verifier::external_body]
fn qr_modules(content: &str) -> (r: Result<(usize, Vec<bool>), String>)
    ensures
        r matches Ok(wm) ==> {
            &&& qr_modules_of(content@) == Some((wm.0 as nat, wm.1@))
            &&& wm.1@.len() == wm.0 * wm.0
            &&& 21 <= wm.0 <= 177
        },
        r is Err ==> qr_modules_of(content@) is None,
{
    match qrcode::QrCode::new(content) {
        Ok(code) => {
            let w = code.width();
            let m = code.to_colors().into_iter().map(|c| c != qrcode::Color::Light).collect();
            Ok((w, m))
        },
        Err(e) => Err(format!("{}", e)),
    }
}

/// Relies on qrcode's QrCode::new and its character renderer: the text form
/// is a function of the input alone.
pub uninterp spec fn qr_ascii_of(s: Seq<char>) -> Option<Seq<char>>;

/// Generates a string containing the QR code for printing in the terminal,
/// two characters per module with a quiet zone, as the qrcode crate renders
/// it; `Err` exactly when the data cannot be encoded.
#[verifier::external_body]
pub fn generate_ascii_qr(content: &str) -> (r: Result<String, String>)
    ensures
        r matches Ok(s) ==> qr_ascii_of(content@) == Some(s@),
        r is Err ==> qr_ascii_of(content@) is None,
{
    let code = match qrcode::QrCode::new(content) {
        Ok(c) => c,
        Err(e) => {
            return Err(format!("{}", e));
        },
    };
    let s = code.render::<char>().quiet_zone(true).module_dimensions(2, 1).build();
    Ok(s)
}

/// Scale of the raster rendering: pixels per module.
pub const QR_SCALE: usize = 4;

/// Quiet zone of the raster rendering, in modules, on every side.
pub const QR_QUIET_ZONE: usize = 2;

/// The gray value of the raster pixel at column `px`, row `py`: black inside
/// a dark module, white elsewhere (quiet zone included). All three channels
/// of a pixel carry this value.
pub open spec fn qr_pixel(w: nat, m: Seq<bool>, px: nat, py: nat) -> u8 {
    let mx = px / (QR_SCALE as nat);
    let my = py / (QR_SCALE as nat);
    let quiet = QR_QUIET_ZONE as nat;
    if quiet <= mx < w + quiet && quiet <= my < w + quiet && m[((my - quiet) * w + (mx
        - quiet)) as int] {
        0
    } else {
        255
    }
}

/// Generates a raw RGB buffer for the QR code, suitable for GUI rendering:
/// `(width, height, bytes)`, 4 by 4 pixels per module with a 2-module quiet
/// zone. Every byte of the buffer is pinned: byte `q` belongs to the pixel at
/// column `(q / 3) % width`, row `(q / 3) / width`, and is black or white as
/// the matrix says. `Err` exactly when the data cannot be encoded.
#[verifier::loop_isolation(false)]
pub fn generate_qr_image(content: &str) -> (r: Result<(u32, u32, Vec<u8>), String>)
    ensures
        r matches Ok(img) ==> match qr_modules_of(content@) {
            Some((w, m)) => {
                &&& img.0 == (w + 2 * QR_QUIET_ZONE) * QR_SCALE
                &&& img.1 == img.0
                &&& img.2@.len() == (img.0 * img.0 * 3) as int
                &&& forall|q: int|
                    0 <= q < img.2@.len() ==> #[trigger] img.2@[q] == qr_pixel(
                        w,
                        m,
                        ((q / 3) % (img.0 as int)) as nat,
                        ((q / 3) / (img.0 as int)) as nat,
                    )
            },
            None => false,
        },
        r is Err <==> qr_modules_of(content@) is None,
{
    let (w, modules) = match qr_modules(content) {
        Ok(wm) => wm,
        Err(e) => {
            return Err(e);
        },
    };
    let width: usize = (w + 2 * QR_QUIET_ZONE) * QR_SCALE;
    proof {
        assert(width * width * 3 <= 724 * 724 * 3) by (nonlinear_arith)
            requires
                width <= 724,
        ;
    }
    let total: usize = width * width * 3;
    let mut buffer: Vec<u8> = Vec::new();
    let mut q: usize = 0;
    while q < total
        invariant
            0 <= q <= total,
            buffer@.len() == q as int,
            forall|t: int|
                0 <= t < q ==> #[trigger] buffer@[t] == qr_pixel(
                    w as nat,
                    modules@,
                    ((t / 3) % (width as int)) as nat,
                    ((t / 3) / (width as int)) as nat,
                ),
        decreases total - q,
    {
        let pixel = q / 3;
        let px = pixel % width;
        let py = pixel / width;
        proof {
            assert(py < width) by (nonlinear_arith)
                requires
                    q < total,
                    total == width * width * 3,
                    width > 0,
                    pixel == q / 3,
                    py == pixel / width,
            ;
        }
        let mx = px / QR_SCALE;
        let my = py / QR_SCALE;
        let value: u8 = if mx >= QR_QUIET_ZONE && mx < w + QR_QUIET_ZONE && my >= QR_QUIET_ZONE
            && my < w + QR_QUIET_ZONE {
            proof {
                assert((my - QR_QUIET_ZONE) * w + (mx - QR_QUIET_ZONE) < w * w <= 177 * 177)
                    by (nonlinear_arith)
                    requires
                        QR_QUIET_ZONE <= my < w + QR_QUIET_ZONE,
                        QR_QUIET_ZONE <= mx < w + QR_QUIET_ZONE,
                        0 < w <= 177,
                ;
            }
            let idx = (my - QR_QUIET_ZONE) * w + (mx - QR_QUIET_ZONE);
            if modules[idx] {
                0
            } else {
                255
            }
        } else {
            255
        };
        buffer.push(value);
        q = q + 1;
    }
    Ok((width as u32, width as u32, buffer))
}

} // verus!
