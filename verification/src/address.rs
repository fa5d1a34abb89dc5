//! SMTP envelope addresses: local part and domain, the null reverse path,
//! and the parent-domain walk used when looking up per-domain rules.

use vstd::prelude::*;
use crate::command::ProtocolError;

verus! {

/// The ASCII commercial at, separating local part and domain.
pub const AT: u8 = 64;
/// The ASCII full stop, separating domain labels.
pub const LABEL_DOT: u8 = 46;
/// The ASCII less-than sign, opening an envelope path.
pub const LT: u8 = 60;
/// The ASCII greater-than sign, closing an envelope path.
pub const GT: u8 = 62;
/// The ASCII space.
pub const SP: u8 = 32;

/// ASCII lower-casing of one byte; domains are compared in this form.
pub open spec fn lower_spec(b: u8) -> u8 {
    if 65 <= b && b <= 90 {
        (b + 32) as u8
    } else {
        b
    }
}

/// One envelope address: local part and domain. The domain is held
/// lower-cased, since domains are matched without regard to case.
pub struct Address {
    pub local: Vec<u8>,
    pub domain: Vec<u8>,
}

impl Address {
    /// A plausible address: non-empty local part, non-empty lower-cased
    /// domain free of the separator.
    pub open spec fn wf(self) -> bool {
        &&& self.local@.len() > 0
        &&& self.domain@.len() > 0
        &&& forall|i: int| 0 <= i < self.domain@.len() ==> self.domain@[i] != AT
        &&& forall|i: int|
            0 <= i < self.domain@.len() ==> self.domain@[i] == lower_spec(self.domain@[i])
    }

    /// A deep copy.
    pub fn duplicate(&self) -> (r: Address)
        ensures
            r.local@ == self.local@,
            r.domain@ == self.domain@,
    {
        Address { local: self.local.clone(), domain: self.domain.clone() }
    }
}

fn lower(b: u8) -> (r: u8)
    ensures
        r == lower_spec(b),
{
    if 65 <= b && b <= 90 {
        b + 32
    } else {
        b
    }
}

/// Index of the last separator in `s`, if any.
pub open spec fn last_at_spec(s: Seq<u8>) -> Option<int> {
    if exists|i: int| 0 <= i < s.len() && s[i] == AT {
        Some(choose|i: int|
            0 <= i < s.len() && s[i] == AT && forall|j: int| i < j < s.len() ==> s[j] != AT)
    } else {
        None
    }
}

fn find_last_at(s: &Vec<u8>) -> (r: Option<usize>)
    ensures
        match r {
            Some(i) => i < s@.len() && s@[i as int] == AT && forall|j: int|
                i < j < s@.len() ==> s@[j] != AT,
            None => forall|j: int| 0 <= j < s@.len() ==> s@[j] != AT,
        },
{
    let mut i: usize = s.len();
    while i > 0
        invariant
            i <= s@.len(),
            forall|j: int| i <= j < s@.len() ==> s@[j] != AT,
        decreases i,
    {
        i = i - 1;
        if s[i] == AT {
            return Some(i);
        }
    }
    None
}

/// The split a raw mailbox parses to: local part before the last
/// separator, lower-cased domain after it; nothing without a separator,
/// or with an empty part on either side.
pub open spec fn parse_address_spec(raw: Seq<u8>) -> Option<(Seq<u8>, Seq<u8>)> {
    match last_at_spec(raw) {
        Some(i) => if 0 < i < raw.len() - 1 {
            Some(
                (
                    raw.subrange(0, i),
                    raw.subrange(i + 1, raw.len() as int).map_values(|b: u8| lower_spec(b)),
                ),
            )
        } else {
            None
        },
        None => None,
    }
}

/// Splits `raw` (for example `john.doe@Example.com`) at the last separator
/// into a well-formed address, lower-casing the domain. Anything without a
/// separator, with an empty local part or with an empty domain is refused.
pub fn parse_address(raw: &Vec<u8>) -> (r: Result<Address, ProtocolError>)
    ensures
        match r {
            Ok(a) => {
                &&& a.wf()
                &&& parse_address_spec(raw@) matches Some(p) && a.local@ == p.0 && a.domain@
                    == p.1
            },
            Err(_) => parse_address_spec(raw@) is None,
        },
{
    match find_last_at(raw) {
        None => Err(ProtocolError::ParsingError),
        Some(i) => {
            proof {
                let ci = i as int;
                assert(exists|k: int|
                    0 <= k < raw@.len() && raw@[k] == AT && forall|j: int|
                        k < j < raw@.len() ==> raw@[j] != AT) by {
                    assert(0 <= ci < raw@.len() && raw@[ci] == AT && forall|j: int|
                        ci < j < raw@.len() ==> raw@[j] != AT);
                }
                let k = choose|k: int|
                    0 <= k < raw@.len() && raw@[k] == AT && forall|j: int|
                        k < j < raw@.len() ==> raw@[j] != AT;
                assert(!(k < ci) && !(ci < k));
                assert(last_at_spec(raw@) == Some(ci));
            }
            let n: usize = raw.len();
            if i == 0 || i >= n - 1 {
                return Err(ProtocolError::ParsingError);
            }
            let mut local: Vec<u8> = Vec::new();
            let mut k: usize = 0;
            while k < i
                invariant
                    k <= i < raw@.len(),
                    local@ == raw@.subrange(0, k as int),
                decreases i - k,
            {
                local.push(raw[k]);
                k = k + 1;
                proof {
                    assert(local@ =~= raw@.subrange(0, k as int));
                }
            }
            let mut domain: Vec<u8> = Vec::new();
            let mut m: usize = i + 1;
            while m < raw.len()
                invariant
                    i + 1 <= m <= raw@.len(),
                    domain@ == raw@.subrange(i + 1, m as int).map_values(|b: u8| lower_spec(b)),
                decreases raw@.len() - m,
            {
                domain.push(lower(raw[m]));
                m = m + 1;
                proof {
                    assert(domain@ =~= raw@.subrange(i + 1, m as int).map_values(
                        |b: u8| lower_spec(b),
                    ));
                }
            }
            proof {
                assert(raw@.subrange(i + 1, raw@.len() as int) =~= raw@.subrange(
                    i + 1,
                    raw@.len() as int,
                ));
                assert forall|t: int| 0 <= t < domain@.len() implies domain@[t] != AT by {
                    assert(domain@[t] == lower_spec(raw@[i + 1 + t]));
                    assert(raw@[i + 1 + t] != AT);
                }
                assert forall|t: int|
                    0 <= t < domain@.len() implies domain@[t] == lower_spec(domain@[t]) by {
                    assert(domain@[t] == lower_spec(raw@[i + 1 + t]));
                }
            }
            Ok(Address { local, domain })
        },
    }
}

/// The parent of a domain: the bytes after its first label separator.
pub open spec fn parent_domain_spec(d: Seq<u8>) -> Option<Seq<u8>> {
    if exists|i: int| 0 <= i < d.len() && d[i] == LABEL_DOT {
        let i = choose|i: int|
            0 <= i < d.len() && d[i] == LABEL_DOT && forall|j: int| 0 <= j < i ==> d[j] != LABEL_DOT;
        Some(d.subrange(i + 1, d.len() as int))
    } else {
        None
    }
}

/// The bytes of the parent domain, if the domain has one.
pub fn parent_domain(d: &Vec<u8>) -> (r: Option<Vec<u8>>)
    ensures
        match r {
            Some(p) => {
                &&& parent_domain_spec(d@) == Some(p@)
                &&& p@.len() < d@.len()
            },
            None => parent_domain_spec(d@) is None,
        },
{
    let mut i: usize = 0;
    while i < d.len()
        invariant
            i <= d@.len(),
            forall|j: int| 0 <= j < i ==> d@[j] != LABEL_DOT,
        decreases d@.len() - i,
    {
        if d[i] == LABEL_DOT {
            let mut out: Vec<u8> = Vec::new();
            let mut m: usize = i + 1;
            while m < d.len()
                invariant
                    i + 1 <= m <= d@.len(),
                    out@ == d@.subrange(i + 1, m as int),
                decreases d@.len() - m,
            {
                out.push(d[m]);
                m = m + 1;
                proof {
                    assert(out@ =~= d@.subrange(i + 1, m as int));
                }
            }
            proof {
                let w = choose|w: int|
                    0 <= w < d@.len() && d@[w] == LABEL_DOT && forall|j: int|
                        0 <= j < w ==> d@[j] != LABEL_DOT;
                assert(d@[i as int] == LABEL_DOT);
                assert(w == i);
            }
            return Some(out);
        }
        i = i + 1;
    }
    None
}

/// Whether `domains` holds `d` itself.
pub open spec fn domain_listed(domains: Seq<Seq<u8>>, d: Seq<u8>) -> bool {
    exists|i: int| 0 <= i < domains.len() && domains[i] == d
}

/// Whether `d` or any of its parent domains is listed: the walk up the
/// label chain used for per-domain rule lookup.
pub open spec fn domain_handled(domains: Seq<Seq<u8>>, d: Seq<u8>) -> bool
    decreases d.len(),
{
    ||| domain_listed(domains, d)
    ||| match parent_domain_spec(d) {
        Some(p) => if p.len() < d.len() {
            domain_handled(domains, p)
        } else {
            false
        },
        None => false,
    }
}

/// Byte-for-byte equality of two byte vectors.
pub fn bytes_eq(a: &Vec<u8>, b: &Vec<u8>) -> (r: bool)
    ensures
        r == (a@ == b@),
{
    if a.len() != b.len() {
        return false;
    }
    let mut i: usize = 0;
    while i < a.len()
        invariant
            i <= a@.len(),
            a@.len() == b@.len(),
            forall|j: int| 0 <= j < i ==> a@[j] == b@[j],
        decreases a@.len() - i,
    {
        if a[i] != b[i] {
            return false;
        }
        i = i + 1;
    }
    proof {
        assert(a@ =~= b@);
    }
    true
}

fn domain_listed_exec(domains: &Vec<Vec<u8>>, d: &Vec<u8>) -> (r: bool)
    ensures
        r == domain_listed(domains@.map_values(|x: Vec<u8>| x@), d@),
{
    let mut i: usize = 0;
    while i < domains.len()
        invariant
            i <= domains@.len(),
            forall|j: int| 0 <= j < i ==> #[trigger] domains@[j]@ != d@,
        decreases domains@.len() - i,
    {
        if bytes_eq(&domains[i], d) {
            proof {
                assert(domains@.map_values(|x: Vec<u8>| x@)[i as int] == d@);
            }
            return true;
        }
        i = i + 1;
    }
    proof {
        let mapped = domains@.map_values(|x: Vec<u8>| x@);
        assert forall|k: int| 0 <= k < mapped.len() implies #[trigger] mapped[k] != d@ by {
            assert(mapped[k] == domains@[k]@);
            assert(domains@[k]@ != d@);
        }
        assert(!domain_listed(mapped, d@));
    }
    false
}

/// Whether the domain, or one of its parents, has an entry in `domains`.
pub fn is_handled_domain(domains: &Vec<Vec<u8>>, d: &Vec<u8>) -> (r: bool)
    ensures
        r == domain_handled(domains@.map_values(|x: Vec<u8>| x@), d@),
    decreases d@.len(),
{
    if domain_listed_exec(domains, d) {
        return true;
    }
    match parent_domain(d) {
        Some(p) => is_handled_domain(domains, &p),
        None => false,
    }
}

} // verus!
