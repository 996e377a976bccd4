//! The identity snapshot embedded in a commit: name, email, and the moment
//! of the commit as a unix timestamp with a timezone offset.

use vstd::prelude::*;
use crate::bytebuf::{bm_bytes, bm_new, bm_put, bm_to_vec};
use crate::numfmt::{signed_dec_rep, two_digit_rep, i64_to_dec};

verus! {

/// An offset renders as a sign and two two-digit fields (`+HHMM`), so its
/// magnitude in minutes must stay under 100 hours.
pub open spec fn valid_offset(off: int) -> bool {
    -6000 < off < 6000
}

/// The `±HHMM` rendering of a timezone offset given in minutes.
pub open spec fn offset_rep(off: int) -> Seq<u8> {
    let sign: u8 = if off < 0 {
        45u8
    } else {
        43u8
    };
    let mag = if off < 0 {
        -off
    } else {
        off
    };
    seq![sign] + two_digit_rep((mag / 60) as nat) + two_digit_rep((mag % 60) as nat)
}

/// Author and committer metadata, captured when the commit is built.
pub struct Author {
    name: Vec<u8>,
    email: Vec<u8>,
    timestamp: i64,
    offset_minutes: i32,
}

/// The line body a commit embeds for this identity:
/// `<name> <<email>> <unix-timestamp> <±HHMM>`.
pub open spec fn author_rep(a: Author) -> Seq<u8> {
    a.spec_name() + seq![32u8, 60u8] + a.spec_email() + seq![62u8, 32u8] + signed_dec_rep(
        a.spec_timestamp(),
    ) + seq![32u8] + offset_rep(a.spec_offset())
}

impl Author {
    #[verifier::type_invariant]
    spec fn inv(self) -> bool {
        valid_offset(self.offset_minutes as int)
    }

    pub closed spec fn spec_name(self) -> Seq<u8> {
        self.name@
    }

    pub closed spec fn spec_email(self) -> Seq<u8> {
        self.email@
    }

    pub closed spec fn spec_timestamp(self) -> int {
        self.timestamp as int
    }

    pub closed spec fn spec_offset(self) -> int {
        self.offset_minutes as int
    }

    /// Captures an identity at a given moment. The caller supplies the
    /// clock reading; nothing here consults the environment.
    pub fn new(name: Vec<u8>, email: Vec<u8>, timestamp: i64, offset_minutes: i32) -> (r: Author)
        requires
            valid_offset(offset_minutes as int),
        ensures
            r.spec_name() == name@,
            r.spec_email() == email@,
            r.spec_timestamp() == timestamp as int,
            r.spec_offset() == offset_minutes as int,
    {
        Author { name, email, timestamp, offset_minutes }
    }

    /// The serialized identity line, embedded by value into commits.
    pub fn bytes(&self) -> (r: Vec<u8>)
        ensures
            r@ == author_rep(*self),
    {
        proof {
            use_type_invariant(self);
        }
        let mut buf = bm_new();
        bm_put(&mut buf, self.name.as_slice());
        let sep_open: Vec<u8> = vec![32u8, 60u8];
        bm_put(&mut buf, sep_open.as_slice());
        bm_put(&mut buf, self.email.as_slice());
        let sep_close: Vec<u8> = vec![62u8, 32u8];
        bm_put(&mut buf, sep_close.as_slice());
        let ts = i64_to_dec(self.timestamp);
        bm_put(&mut buf, ts.as_slice());
        let space: Vec<u8> = vec![32u8];
        bm_put(&mut buf, space.as_slice());
        let off = self.format_offset();
        bm_put(&mut buf, off.as_slice());
        let r = bm_to_vec(&buf);
        proof {
            assert(r@ =~= author_rep(*self));
        }
        r
    }

    /// The `±HHMM` timezone field.
    fn format_offset(&self) -> (r: Vec<u8>)
        ensures
            r@ == offset_rep(self.spec_offset()),
    {
        proof {
            use_type_invariant(self);
        }
        let off = self.offset_minutes;
        let mut out: Vec<u8> = Vec::new();
        if off < 0 {
            out.push(45);
        } else {
            out.push(43);
        }
        let mag: i32 = if off < 0 {
            -off
        } else {
            off
        };
        let hours = (mag / 60) as u8;
        let minutes = (mag % 60) as u8;
        out.push(48 + hours / 10);
        out.push(48 + hours % 10);
        out.push(48 + minutes / 10);
        out.push(48 + minutes % 10);
        proof {
            assert(out@ =~= offset_rep(self.spec_offset()));
        }
        out
    }
}

} // verus!
