use vstd::prelude::*;

verus! {

use crate::strings::{dec_str, u128_to_string, str_eq};
use crate::classify::{ProbeOutcome, OutcomeModel};

/// One successful probe: the API response code (zero on success) and the
/// elapsed milliseconds.
pub struct AreaResult {
    pub code: i64,
    pub ms: u128,
}

/// The per-region outcomes of one candidate endpoint: a region's entry is
/// present exactly when its probe succeeded.
pub struct AreasResult {
    pub server: String,
    pub cn: Option<AreaResult>,
    pub hk: Option<AreaResult>,
    pub tw: Option<AreaResult>,
    pub th: Option<AreaResult>,
}

/// A fresh report row for one candidate endpoint, with no region populated.
pub fn new_areas_result(server: String) -> (r: AreasResult)
    ensures
        r.server == server,
        r.cn is None,
        r.hk is None,
        r.tw is None,
        r.th is None,
{
    AreasResult { server, cn: None, hk: None, tw: None, th: None }
}

/// Stores one successful probe under its region; a region outside the fixed
/// set changes nothing.
pub fn record_success(result: &mut AreasResult, area: &str, ar: AreaResult)
    ensures
        final(result).server == old(result).server,
        area@ == ("cn")@ ==> final(result).cn == Some(ar)
            && final(result).hk == old(result).hk
            && final(result).tw == old(result).tw
            && final(result).th == old(result).th,
        area@ == ("hk")@ ==> final(result).hk == Some(ar)
            && final(result).cn == old(result).cn
            && final(result).tw == old(result).tw
            && final(result).th == old(result).th,
        area@ == ("tw")@ ==> final(result).tw == Some(ar)
            && final(result).cn == old(result).cn
            && final(result).hk == old(result).hk
            && final(result).th == old(result).th,
        area@ == ("th")@ ==> final(result).th == Some(ar)
            && final(result).cn == old(result).cn
            && final(result).hk == old(result).hk
            && final(result).tw == old(result).tw,
        area@ != ("cn")@ && area@ != ("hk")@ && area@ != ("tw")@ && area@ != ("th")@
            ==> final(result).cn == old(result).cn
            && final(result).hk == old(result).hk
            && final(result).tw == old(result).tw
            && final(result).th == old(result).th,
{
    proof {
        reveal_strlit("cn");
        reveal_strlit("hk");
        reveal_strlit("tw");
        reveal_strlit("th");
        assert(("cn")@[0] == 'c' && ("hk")@[0] == 'h' && ("tw")@[0] == 't'
            && ("th")@[0] == 't' && ("tw")@[1] == 'w' && ("th")@[1] == 'h');
    }
    if str_eq(area, "cn") {
        result.cn = Some(ar);
    } else if str_eq(area, "hk") {
        result.hk = Some(ar);
    } else if str_eq(area, "tw") {
        result.tw = Some(ar);
    } else if str_eq(area, "th") {
        result.th = Some(ar);
    }
}

/// A run of spaces of the given length.
pub open spec fn spaces(n: int) -> Seq<char> {
    Seq::new(if n <= 0 { 0 } else { n as nat }, |i: int| ' ')
}

/// The text left-padded with spaces to at least the given width.
pub open spec fn pad_left(s: Seq<char>, w: int) -> Seq<char> {
    spaces(w - s.len()) + s
}

/// One table cell: the elapsed milliseconds right-aligned in a four-wide
/// field between single spaces with an `ms` suffix, or eight blanks when the
/// region's probe did not succeed.
pub open spec fn cell_spec(o: Option<AreaResult>) -> Seq<char> {
    match o {
        Some(ar) => (" ")@ + pad_left(dec_str(ar.ms as nat), 4) + ("ms ")@,
        None => ("        ")@,
    }
}

/// One table row: the four region cells separated by `|`, then the
/// candidate endpoint's name.
pub open spec fn row_spec(r: AreasResult) -> Seq<char> {
    cell_spec(r.cn) + ("|")@ + cell_spec(r.hk) + ("|")@ + cell_spec(r.tw) + ("|")@
        + cell_spec(r.th) + ("| ")@ + r.server@
}

/// Renders one table cell, as `cell_spec` states.
fn render_cell(o: &Option<AreaResult>) -> (r: String)
    ensures
        r@ == cell_spec(*o),
{
    match o {
        Some(ar) => {
            let digits = u128_to_string(ar.ms);
            let dl = digits.as_str().unicode_len();
            let mut cell = String::from_str(" ");
            let mut k: usize = dl;
            proof {
                reveal_strlit(" ");
                assert(cell@ =~= (" ")@ + spaces(dl as int - digits@.len()));
            }
            while k < 4
                invariant
                    dl as nat == digits@.len(),
                    dl <= k,
                    dl < 4 ==> k <= 4,
                    4 <= dl ==> k == dl,
                    cell@ == (" ")@ + spaces(k as int - digits@.len()),
                decreases 4 - k,
            {
                cell.append(" ");
                k += 1;
                proof {
                    reveal_strlit(" ");
                    assert(cell@ =~= (" ")@ + spaces(k as int - digits@.len()));
                }
            }
            cell.append(digits.as_str());
            cell.append("ms ");
            proof {
                assert(spaces(k as int - digits@.len()) =~= spaces(4 - digits@.len()));
                assert(cell@ =~= (" ")@ + pad_left(dec_str(ar.ms as nat), 4) + ("ms ")@);
            }
            cell
        },
        None => String::from_str("        "),
    }
}

/// Renders one table row, as `row_spec` states.
pub fn render_row(r: &AreasResult) -> (out: String)
    ensures
        out@ == row_spec(*r),
{
    let mut out = render_cell(&r.cn);
    out.append("|");
    let c = render_cell(&r.hk);
    out.append(c.as_str());
    out.append("|");
    let c = render_cell(&r.tw);
    out.append(c.as_str());
    out.append("|");
    let c = render_cell(&r.th);
    out.append(c.as_str());
    out.append("| ");
    out.append(r.server.as_str());
    proof {
        assert(out@ =~= row_spec(*r));
    }
    out
}

/// The table's header row, naming the four region columns and the endpoint
/// column.
pub fn render_header() -> (r: String)
    ensures
        r@ == ("   cn   |   hk   |   tw   |   th   | server")@,
{
    String::from_str("   cn   |   hk   |   tw   |   th   | server")
}

/// The progress line for one finished probe: the endpoint and region, then
/// the elapsed milliseconds on success or the failure reason.
pub open spec fn progress_spec(server: Seq<char>, area: Seq<char>, o: OutcomeModel) -> Seq<char> {
    let head = server + (" (")@ + area + ("): ")@;
    match o {
        OutcomeModel::Success { ms } => head + dec_str(ms) + ("ms")@,
        OutcomeModel::Failure { reason } => head + reason,
    }
}

/// Renders the progress line for one finished probe, as `progress_spec`
/// states.
pub fn format_progress(server: &str, area: &str, outcome: &ProbeOutcome) -> (r: String)
    ensures
        r@ == progress_spec(server@, area@, outcome@),
{
    let mut line = String::from_str(server);
    line.append(" (");
    line.append(area);
    line.append("): ");
    match outcome {
        ProbeOutcome::Success { ms } => {
            let digits = u128_to_string(*ms);
            line.append(digits.as_str());
            line.append("ms");
        },
        ProbeOutcome::Failure { reason } => {
            line.append(reason.as_str());
        },
    }
    proof {
        assert(line@ =~= progress_spec(server@, area@, outcome@));
    }
    line
}

} // verus!
