//! The episode record and the sanitizing of a title search before it is
//! spliced into a lookup pattern.

use vstd::prelude::*;

verus! {

/// One episode row: its catalogue id, title, and position in the series.
pub struct Episode {
    pub id: String,
    pub title: String,
    pub season: i32,
    pub episode: i32,
}

/// Characters a title search may not carry into the lookup pattern.
pub open spec fn is_line_control(c: char) -> bool {
    c == '\n' || c == '\r' || c == '\t'
}

/// A title search with line breaks and tabs removed, fit for splicing
/// into an episode lookup pattern.
pub fn sanitize_pattern(name: &str) -> (r: String)
    ensures
        r@ == name@.filter(|c: char| !is_line_control(c)),
{
    let ghost pred = |c: char| !is_line_control(c);
    let n = name.unicode_len();
    let mut out = String::new();
    let mut i: usize = 0;
    proof {
        assert(name@.take(0) =~= Seq::<char>::empty());
        reveal(Seq::filter);
        assert(out@ =~= name@.take(0).filter(pred));
    }
    while i < n
        invariant
            n == name@.len(),
            i <= n,
            out@ == name@.take(i as int).filter(pred),
            pred == (|c: char| !is_line_control(c)),
        decreases n - i,
    {
        let ghost before = name@.take(i as int);
        let ghost after = name@.take(i + 1);
        proof {
            assert(after.drop_last() =~= before);
            assert(after.last() == name@[i as int]);
            reveal(Seq::filter);
        }
        let c = name.get_char(i);
        if !(c == '\n' || c == '\r' || c == '\t') {
            let piece = name.substring_char(i, i + 1);
            out.append(piece);
            proof {
                assert(piece@ =~= seq![name@[i as int]]);
                assert(after.filter(pred) =~= before.filter(pred).push(after.last()));
            }
        } else {
            proof {
                assert(after.filter(pred) =~= before.filter(pred));
            }
        }
        i += 1;
    }
    proof {
        assert(name@.take(n as int) =~= name@);
    }
    out
}

} // verus!
