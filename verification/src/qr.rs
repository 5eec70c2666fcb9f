//! QR codes, laid out for drawing.

pub mod laws;

use vstd::prelude::*;
use vstd::string::*;
use vstd::utf8::*;

verus! {

/// The margin around the code, in modules; readers need it for reliable scans.
pub const QUIET: usize = 4;

/// The QR code of some data: its width in modules, and for each module, row by
/// row, whether it is dark; or why there is none.
pub uninterp spec fn qr_code(data: Seq<u8>) -> Result<(usize, Seq<bool>), Seq<char>>;

/// `qrcode::QrCode::new`, with `width` and `to_colors` of what it returns: the
/// code of the data at medium error correction, a square of at most 177 modules
/// a side; or the text of the error, when the data is too long. Which modules
/// are dark is left to its name.
#[verifier::external_body]
fn encode(data: &[u8]) -> (r: Result<(usize, Vec<bool>), String>)
    requires
        data@.len() <= usize::MAX / 64,
    ensures
        match r {
            Ok((width, dark)) => {
                &&& qr_code(data@) == Ok::<(usize, Seq<bool>), Seq<char>>((width, dark@))
                &&& width <= 177
                &&& dark@.len() == width * width
            },
            Err(why) => qr_code(data@) == Err::<(usize, Seq<bool>), Seq<char>>(why@),
        },
{
    match qrcode::QrCode::new(data) {
        Ok(code) => Ok(
            (
                code.width(),
                code.to_colors().into_iter().map(|c| c.select(true, false)).collect(),
            ),
        ),
        Err(e) => Err(e.to_string()),
    }
}

/// Where to draw: the side of the square with its margin, and the column and
/// row of each dark module in it.
pub struct Layout {
    pub total: usize,
    pub cells: Vec<(usize, usize)>,
}

/// The places of the dark ones among the first `n` modules.
pub open spec fn dark_cells(width: nat, dark: Seq<bool>, n: nat) -> Seq<(usize, usize)>
    decreases n,
{
    if n == 0 {
        Seq::empty()
    } else {
        let before = dark_cells(width, dark, (n - 1) as nat);
        let i = n - 1;
        if dark[i] {
            before.push(
                ((i % width as int + QUIET) as usize, (i / width as int + QUIET) as usize),
            )
        } else {
            before
        }
    }
}

/// What is drawn of a code.
pub open spec fn is_layout(r: Result<Layout, String>, width: usize, dark: Seq<bool>) -> bool {
    match r {
        Ok(l) => {
            &&& width > 0
            &&& l.total == width + 2 * QUIET
            &&& l.cells@ == dark_cells(width as nat, dark, dark.len())
        },
        Err(why) => width == 0 && why@ == "пустой QR-код"@,
    }
}

/// Lays out a code of some width; see [`is_layout`].
pub fn lay_out(width: usize, dark: &[bool]) -> (r: Result<Layout, String>)
    requires
        width <= 0xffff,
        dark@.len() == width * width,
    ensures
        is_layout(r, width, dark@),
{
    if width == 0 {
        return Err("пустой QR-код".to_string());
    }
    let mut cells: Vec<(usize, usize)> = Vec::new();
    let mut i: usize = 0;
    while i < dark.len()
        invariant
            0 < width <= 0xffff,
            i <= dark@.len(),
            dark@.len() == width * width,
            cells@ == dark_cells(width as nat, dark@, i as nat),
        decreases dark.len() - i,
    {
        if dark[i] {
            proof {
                assert(i / width <= width) by (nonlinear_arith)
                    requires
                        0 < width,
                        i < width * width,
                ;
            }
            cells.push((i % width + QUIET, i / width + QUIET));
        }
        i = i + 1;
    }
    Ok(Layout { total: width + 2 * QUIET, cells })
}

/// What is drawn of some data, or why nothing is.
pub open spec fn is_drawing(r: Result<Layout, String>, data: Seq<u8>) -> bool {
    match qr_code(data) {
        Ok((width, dark)) => is_layout(r, width, dark),
        Err(text) => r matches Err(why) && why@ == text,
    }
}

/// Lays out the QR code of a text; see [`is_drawing`].
pub fn draw(data: &str) -> (r: Result<Layout, String>)
    requires
        encode_utf8(data@).len() <= usize::MAX / 64,
    ensures
        is_drawing(r, encode_utf8(data@)),
{
    match encode(data.as_bytes()) {
        Ok((width, dark)) => lay_out(width, dark.as_slice()),
        Err(why) => Err(why),
    }
}

/// Every dark module is drawn within the margin, and nothing else is.
pub proof fn law_drawing_keeps_the_margin(width: nat, dark: Seq<bool>, n: nat)
    requires
        0 < width <= 0xffff,
        dark.len() == width * width,
        n <= dark.len(),
    ensures
        forall|k: int|
            0 <= k < dark_cells(width, dark, n).len() ==> {
                let c = #[trigger] dark_cells(width, dark, n)[k];
                &&& QUIET <= c.0 < QUIET + width
                &&& QUIET <= c.1 < QUIET + width
                &&& dark[(c.1 - QUIET) * width + (c.0 - QUIET)]
            },
        forall|i: int|
            0 <= i < n && #[trigger] dark[i] ==> dark_cells(width, dark, n).contains(
                ((i % width as int + QUIET) as usize, (i / width as int + QUIET) as usize),
            ),
    decreases n,
{
    if n > 0 {
        let m = (n - 1) as nat;
        let i = n - 1;
        law_drawing_keeps_the_margin(width, dark, m);
        let before = dark_cells(width, dark, m);
        let after = dark_cells(width, dark, n);
        let here = ((i % width as int + QUIET) as usize, (i / width as int + QUIET) as usize);
        assert(0 <= i / width as int && i / (width as int) < width && i == (i / width as int) * width
            + i % width as int && 0 <= i % (width as int) && i % (width as int) < width)
            by (nonlinear_arith)
            requires
                0 < width,
                0 <= i < width * width,
        ;
        if dark[i] {
            assert(after == before.push(here));
            assert(after[before.len() as int] == here);
        }
        assert forall|j: int| 0 <= j < n && #[trigger] dark[j] implies after.contains(
            ((j % width as int + QUIET) as usize, (j / width as int + QUIET) as usize),
        ) by {
            if j < m {
                let c = ((j % width as int + QUIET) as usize, (j / width as int + QUIET) as usize);
                assert(before.contains(c));
                let k = choose|k: int| 0 <= k < before.len() && before[k] == c;
                assert(after[k] == c);
            }
        }
        assert forall|k: int| 0 <= k < after.len() implies {
            let c = #[trigger] after[k];
            &&& QUIET <= c.0 < QUIET + width
            &&& QUIET <= c.1 < QUIET + width
            &&& dark[(c.1 - QUIET) * width + (c.0 - QUIET)]
        } by {
            if k < before.len() {
                assert(after[k] == before[k]);
            }
        }
    }
}

} // verus!
