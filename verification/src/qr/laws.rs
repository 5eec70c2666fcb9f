//! What holds of the calls that lay out a code.

use vstd::prelude::*;
use vstd::utf8::*;
use crate::qr;
use crate::qr::Layout;

verus! {

/// A code is drawn with a margin of four modules on every side, and exactly its
/// dark modules are drawn, each in its row and column.
pub proof fn law_dark_modules_are_drawn(
    width: usize,
    dark: &[bool],
    r: Result<Layout, String>,
    col: usize,
    row: usize,
)
    requires
        call_ensures(qr::lay_out, (width, dark), r),
        0 < width <= 0xffff,
        dark@.len() == width * width,
        col <= 0x1_0000,
        row <= 0x1_0000,
    ensures
        r matches Ok(l) && {
            &&& l.total == width + 8
            &&& l.cells@.contains((col, row)) <==> 4 <= col < width + 4 && 4 <= row < width + 4
                && dark@[(row - 4) * width + (col - 4)]
        },
{
    let n = dark@.len();
    let w = width as nat;
    qr::law_drawing_keeps_the_margin(w, dark@, n);
    let cells = qr::dark_cells(w, dark@, n);
    if cells.contains((col, row)) {
        let k = choose|k: int| 0 <= k < cells.len() && cells[k] == (col, row);
        assert(cells[k].0 == col && cells[k].1 == row);
    }
    if 4 <= col < width + 4 && 4 <= row < width + 4 && dark@[(row - 4) * width + (col - 4)] {
        let i = (row - 4) * width + (col - 4);
        assert(0 <= i < width * width && i % (width as int) == col - 4 && i / (width as int) == row
            - 4) by (nonlinear_arith)
            requires
                i == (row - 4) * width + (col - 4),
                0 <= row - 4 < width,
                0 <= col - 4 < width,
        ;
        assert(dark@[i]);
    }
}

/// Nothing is drawn of a code without modules.
pub proof fn law_empty_code_is_an_error(dark: &[bool], r: Result<Layout, String>)
    requires
        call_ensures(qr::lay_out, (0, dark), r),
    ensures
        r is Err,
{
}

/// What is drawn for a text is the code of its bytes.
pub proof fn law_code_of_a_text(
    data: &str,
    width: usize,
    dark: &[bool],
    laid: Result<Layout, String>,
    r: Result<Layout, String>,
)
    requires
        call_ensures(qr::draw, (data,), r),
        qr::qr_code(encode_utf8(data@)) == Ok::<(usize, Seq<bool>), Seq<char>>((width, dark@)),
        call_ensures(qr::lay_out, (width, dark), laid),
    ensures
        r is Ok <==> laid is Ok,
        r matches Ok(l) ==> l.total == laid->Ok_0.total && l.cells@ == laid->Ok_0.cells@,
{
}

} // verus!
