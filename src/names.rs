//! Splitting a series name of the form `mast~sensor` or `mast~sensor~extra`.
use vstd::prelude::*;

verus! {

/// The pieces of `s` between occurrences of `sep`, in order, as `str::split` yields them.
pub open spec fn split_pieces(s: Seq<char>, sep: char) -> Seq<Seq<char>>
    decreases s.len(),
{
    if s.len() == 0 {
        seq![Seq::empty()]
    } else {
        let rest = split_pieces(s.drop_last(), sep);
        if s.last() == sep {
            rest.push(Seq::empty())
        } else {
            rest.update(rest.len() - 1, rest.last().push(s.last()))
        }
    }
}

/// Relies on `str::split` with a `char` pattern: the pieces between separators, in order.
#[verifier::external_body]
pub(crate) fn split_on(s: &str, sep: char) -> (r: Vec<String>)
    ensures
        r@.len() == split_pieces(s@, sep).len(),
        forall|i: int| 0 <= i < r@.len() ==> (#[trigger] r@[i])@ == split_pieces(s@, sep)[i],
{
    s.split(sep).map(|p| p.to_string()).collect()
}

/// The mast and sensor names of a series name: its first two `~`-separated pieces,
/// when it has two or three pieces.
pub fn unwrap_name(name: &str) -> (r: Result<(String, String), String>)
    ensures
        ({
            let pieces = split_pieces(name@, '~');
            match r {
                Ok((mast, sensor)) => (pieces.len() == 2 || pieces.len() == 3) && mast@ == pieces[0]
                    && sensor@ == pieces[1],
                Err(e) => !(pieces.len() == 2 || pieces.len() == 3) && e@ == "Unsupported number of names"@,
            }
        }),
{
    let names = split_on(name, '~');
    if names.len() == 2 || names.len() == 3 {
        Ok((names[0].clone(), names[1].clone()))
    } else {
        Err("Unsupported number of names".to_owned())
    }
}

} // verus!
