//! The message that names the parameters a command line used without their
//! being registered.

use crate::param::{key_views, Param, ParamView};
use crate::text::push_char;
use vstd::prelude::*;
use vstd::string::*;

verus! {

/// How a key is shown in the message: a space, then the key between single
/// quotes, with one dash before a short key and two before a long one.
pub open spec fn key_text(k: ParamView) -> Seq<char> {
    match k {
        ParamView::Short(c) => " '-"@.push(c) + "'"@,
        ParamView::Long(s) => " '--"@ + s + "'"@,
    }
}

/// The keys of `ks` as the message shows them, with ` and` between every
/// two of them.
pub open spec fn keys_text(ks: Seq<ParamView>) -> Seq<char>
    decreases ks.len(),
{
    if ks.len() == 0 {
        Seq::empty()
    } else if ks.len() == 1 {
        key_text(ks[0])
    } else {
        keys_text(ks.drop_last()) + " and"@ + key_text(ks.last())
    }
}

/// The message for the invalid parameters `ks`, of which there is at least
/// one.
pub open spec fn message(ks: Seq<ParamView>) -> Seq<char> {
    let head = if ks.len() == 1 {
        "Invalid parameter"@
    } else {
        "Invalid parameters"@
    };
    head + keys_text(ks) + "\n"@
}

/// Appends to `out` the key `key` as the message shows it.
fn push_key(out: &mut String, key: &Param)
    ensures
        final(out)@ == old(out)@ + key_text(key@),
{
    match key {
        Param::Short(c) => {
            out.append(" '-");
            push_char(out, *c);
            out.append("'");
            assert(out@ =~= old(out)@ + key_text(key@));
        },
        Param::Long(s) => {
            out.append(" '--");
            out.append(s.as_str());
            out.append("'");
            assert(out@ =~= old(out)@ + key_text(key@));
        },
    }
}

/// Says whether any parameter was invalid: `Ok` if `invalid` is empty, else
/// the message that names each of its keys, in their order.
pub fn describe(invalid: &Vec<Param>) -> (r: Result<(), String>)
    ensures
        match r {
            Ok(_) => invalid@.len() == 0,
            Err(m) => invalid@.len() > 0 && m@ == message(key_views(invalid@)),
        },
{
    let n: usize = invalid.len();
    if n == 0 {
        return Ok(());
    }
    let ghost ks = key_views(invalid@);
    let ghost head = if n == 1 {
        "Invalid parameter"@
    } else {
        "Invalid parameters"@
    };
    let mut out = String::new();
    if n == 1 {
        out.append("Invalid parameter");
    } else {
        out.append("Invalid parameters");
    }
    assert(out@ =~= head + keys_text(ks.take(0)));
    let mut i: usize = 0;
    while i < n
        invariant
            i <= n,
            n == invalid.len(),
            ks == key_views(invalid@),
            out@ == head + keys_text(ks.take(i as int)),
        decreases n - i,
    {
        if i > 0 {
            out.append(" and");
        }
        push_key(&mut out, &invalid[i]);
        proof {
            let now = ks.take(i + 1);
            assert(now.drop_last() =~= ks.take(i as int));
            assert(now.last() == invalid[i as int]@);
            assert(now[0] == now.last() || i > 0);
            assert(out@ =~= head + keys_text(now));
        }
        i += 1;
    }
    out.append("\n");
    proof {
        assert(ks.take(n as int) =~= ks);
    }
    Err(out)
}

} // verus!
