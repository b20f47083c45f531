use vstd::prelude::*;

verus! {

use crate::strings::views_of;

/// Name for Rust's Unicode white-space classification of a character.
pub uninterp spec fn is_unicode_space(c: char) -> bool;

/// Relies on char::is_whitespace: the White_Space property depends on the
/// character alone, and space, tab, carriage return and line feed have it.
#[verifier::external_body]
fn is_whitespace_char(c: char) -> (r: bool)
    ensures
        r == is_unicode_space(c),
        (c == ' ' || c == '\t' || c == '\r' || c == '\n') ==> r,
{
    c.is_whitespace()
}

/// Every character of the line is white space; holds of the empty line.
pub open spec fn all_space(s: Seq<char>) -> bool {
    forall|i: int| 0 <= i < s.len() ==> is_unicode_space(#[trigger] s[i])
}

/// A candidate-list line is used when it is no comment (first character `#`)
/// and is not blank after trimming.
pub open spec fn keep_line(s: Seq<char>) -> bool {
    !(s.len() > 0 && s[0] == '#') && !all_space(s)
}

/// The lines of the candidate list that are used.
pub open spec fn kept_lines(s: Seq<Seq<char>>) -> Seq<Seq<char>> {
    s.filter(|l: Seq<char>| keep_line(l))
}

/// Decides whether one candidate-list line is used.
fn line_kept(line: &str) -> (r: bool)
    ensures
        r == keep_line(line@),
{
    let n = line.unicode_len();
    if n > 0 && line.get_char(0) == '#' {
        return false;
    }
    let mut i: usize = 0;
    while i < n
        invariant
            n as nat == line@.len(),
            0 <= i <= n,
            forall|k: int| 0 <= k < i ==> is_unicode_space(#[trigger] line@[k]),
            !(line@.len() > 0 && line@[0] == '#'),
        decreases n - i,
    {
        if !is_whitespace_char(line.get_char(i)) {
            return true;
        }
        i += 1;
    }
    false
}

proof fn lemma_kept_take_step(s: Seq<Seq<char>>, i: int)
    requires
        0 <= i < s.len(),
    ensures
        kept_lines(s.take(i + 1)) == (if keep_line(s[i]) {
            kept_lines(s.take(i)).push(s[i])
        } else {
            kept_lines(s.take(i))
        }),
{
    reveal(Seq::filter);
    assert(s.take(i + 1).drop_last() =~= s.take(i));
    assert(s.take(i + 1).last() == s[i]);
}

/// Keeps the candidate-endpoint lines that are used: comment lines and
/// blank or all-white-space lines are dropped, the rest kept verbatim and
/// in order.
pub fn get_server_list(lines: Vec<String>) -> (r: Vec<String>)
    ensures
        views_of(r@) == kept_lines(views_of(lines@)),
{
    let mut server_list: Vec<String> = Vec::new();
    let n = lines.len();
    proof {
        reveal(Seq::filter);
        assert(views_of(lines@).take(0) =~= Seq::<Seq<char>>::empty());
        assert(views_of(server_list@) =~= kept_lines(views_of(lines@).take(0)));
    }
    for i in 0..n
        invariant
            n == lines@.len(),
            views_of(server_list@) == kept_lines(views_of(lines@).take(i as int)),
    {
        let ghost out0 = views_of(server_list@);
        if line_kept(lines[i].as_str()) {
            let line = lines[i].clone();
            server_list.push(line);
            proof {
                assert(views_of(server_list@) =~= out0.push(lines@[i as int]@));
            }
        }
        proof {
            lemma_kept_take_step(views_of(lines@), i as int);
            assert(views_of(lines@)[i as int] == lines@[i as int]@);
        }
    }
    proof {
        assert(views_of(lines@).take(n as int) =~= views_of(lines@));
    }
    server_list
}

/// One region and its fixed content identifier.
pub struct AreaEp {
    pub area: &'static str,
    pub ep: i32,
}

/// The fixed region table: four regions, each with its content identifier,
/// probed in this order.
pub fn ep_list() -> (r: Vec<AreaEp>)
    ensures
        r@.len() == 4,
        r@[0].area@ == ("cn")@ && r@[0].ep == 266323,
        r@[1].area@ == ("hk")@ && r@[1].ep == 425578,
        r@[2].area@ == ("tw")@ && r@[2].ep == 285951,
        r@[3].area@ == ("th")@ && r@[3].ep == 377544,
{
    let mut r: Vec<AreaEp> = Vec::new();
    r.push(AreaEp { area: "cn", ep: 266323 });
    r.push(AreaEp { area: "hk", ep: 425578 });
    r.push(AreaEp { area: "tw", ep: 285951 });
    r.push(AreaEp { area: "th", ep: 377544 });
    r
}

/// The fixed pause after every probe, in milliseconds.
pub const PROBE_DELAY_MS: u64 = 150;

} // verus!
