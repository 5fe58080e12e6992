//! Hostname router: parses hostnames of the form
//! `<residual...>.<tenant-span>.<base-domain>` anchored to a configured base
//! domain.
//!
//! The grammar strips the base domain and its separating dot, then locates
//! the last two dots of what remains: everything left of the second-to-last
//! dot is the residual, everything right of it (the span between that dot
//! and the end, which contains the final dot) is the tenant span matched
//! verbatim against registry keys.

use vstd::prelude::*;
use vstd::string::StrSliceExecFns;

verus! {

/// `suffix` is a suffix of `s`.
pub open spec fn ends_with(s: Seq<char>, suffix: Seq<char>) -> bool {
    suffix.len() <= s.len() && s.subrange(s.len() - suffix.len(), s.len() as int) == suffix
}

/// Index of the last `'.'` strictly before position `from` in `s`, if any.
pub open spec fn rfind_dot(s: Seq<char>, from: int) -> Option<int>
    decreases from,
{
    if from <= 0 {
        None
    } else if s[from - 1] == '.' {
        Some(from - 1)
    } else {
        rfind_dot(s, from - 1)
    }
}

/// The hostname grammar: strip `base` as a suffix, require a `'.'`
/// separator before it, then split what remains at its second-to-last dot.
/// Returns `(residual, tenant_span)`, where the tenant span runs from just
/// after that dot to the end of the stripped prefix.
pub open spec fn spec_parse_host(host: Seq<char>, base: Seq<char>) -> Option<(Seq<char>, Seq<char>)> {
    if !ends_with(host, base) {
        None
    } else {
        let h1 = host.take(host.len() - base.len());
        if h1.len() == 0 || h1.last() != '.' {
            None
        } else {
            let h2 = h1.drop_last();
            match rfind_dot(h2, h2.len() as int) {
                None => None,
                Some(env) => match rfind_dot(h2, env) {
                    None => None,
                    Some(app) => Some((h2.take(app), h2.subrange(app + 1, h2.len() as int))),
                },
            }
        }
    }
}

/// If `i` is a dot position with no dot between `i` and `from`, the
/// backwards search from `from` finds exactly `i`.
pub proof fn lemma_rfind_dot_found(s: Seq<char>, from: int, i: int)
    requires
        0 <= i < from <= s.len(),
        s[i] == '.',
        forall|j: int| i < j < from ==> s[j] != '.',
    ensures
        rfind_dot(s, from) == Some(i),
    decreases from,
{
    if from - 1 == i {
    } else {
        assert(s[from - 1] != '.');
        lemma_rfind_dot_found(s, from - 1, i);
    }
}

/// The search only looks below `from`, so a prefix long enough to contain
/// the searched range gives the same answer.
pub proof fn lemma_rfind_dot_take(s: Seq<char>, m: int, from: int)
    requires
        0 <= from <= m <= s.len(),
    ensures
        rfind_dot(s.take(m), from) == rfind_dot(s, from),
    decreases from,
{
    if from <= 0 {
    } else {
        assert(s.take(m)[from - 1] == s[from - 1]);
        if s[from - 1] == '.' {
        } else {
            lemma_rfind_dot_take(s, m, from - 1);
        }
    }
}

/// Character-for-character string equality, equivalent to equality of the
/// views.
pub fn str_eq(a: &str, b: &str) -> (r: bool)
    ensures
        r <==> a@ == b@,
{
    let al = a.unicode_len();
    let bl = b.unicode_len();
    if al != bl {
        return false;
    }
    let mut i: usize = 0;
    while i < al
        invariant
            0 <= i <= al,
            al as nat == a@.len(),
            bl as nat == b@.len(),
            al == bl,
            forall|j: int| 0 <= j < i ==> a@[j] == b@[j],
        decreases al - i,
    {
        if a.get_char(i) != b.get_char(i) {
            assert(a@[i as int] != b@[i as int]);
            return false;
        }
        i += 1;
    }
    proof {
        assert(a@ =~= b@);
    }
    true
}

/// Index of the last `'.'` strictly before position `end` of `s`, found by
/// scanning backwards.
fn rfind_dot_before(s: &str, end: usize) -> (r: Option<usize>)
    requires
        end as nat <= s@.len(),
    ensures
        match r {
            Some(i) => i < end && rfind_dot(s@, end as int) == Some(i as int),
            None => rfind_dot(s@, end as int) is None,
        },
{
    let mut i: usize = end;
    while i > 0
        invariant
            0 <= i <= end,
            end as nat <= s@.len(),
            rfind_dot(s@, end as int) == rfind_dot(s@, i as int),
        decreases i,
    {
        if s.get_char(i - 1) == '.' {
            return Some(i - 1);
        }
        i -= 1;
    }
    None
}

/// Parse `host` against the base domain `hostname` by the subdomain
/// grammar, returning borrowed `(residual, tenant_span)` slices exactly as
/// `spec_parse_host` describes.
pub fn parse_host<'a>(host: &'a str, hostname: &str) -> (r: Option<(&'a str, &'a str)>)
    ensures
        match (r, spec_parse_host(host@, hostname@)) {
            (Some(p), Some(q)) => p.0@ == q.0 && p.1@ == q.1,
            (None, None) => true,
            _ => false,
        },
{
    let hl = host.unicode_len();
    let bl = hostname.unicode_len();
    if hl < bl {
        return None;
    }
    let suffix = host.substring_char(hl - bl, hl);
    if !str_eq(suffix, hostname) {
        return None;
    }
    if hl == bl {
        proof {
            assert(host@.take(hl - bl) =~= Seq::<char>::empty());
        }
        return None;
    }
    let ghost h1 = host@.take(hl - bl);
    if host.get_char(hl - bl - 1) != '.' {
        return None;
    }
    let h2_end = hl - bl - 1;
    let ghost h2 = h1.drop_last();
    proof {
        assert(h2 =~= host@.take(h2_end as int));
    }
    let env = match rfind_dot_before(host, h2_end) {
        None => {
            proof {
                lemma_rfind_dot_take(host@, h2_end as int, h2_end as int);
            }
            return None;
        },
        Some(e) => e,
    };
    proof {
        lemma_rfind_dot_take(host@, h2_end as int, h2_end as int);
    }
    let app = match rfind_dot_before(host, env) {
        None => {
            proof {
                lemma_rfind_dot_take(host@, h2_end as int, env as int);
            }
            return None;
        },
        Some(a) => a,
    };
    proof {
        lemma_rfind_dot_take(host@, h2_end as int, env as int);
    }
    let rest = host.substring_char(0, app);
    let tenant = host.substring_char(app + 1, h2_end);
    proof {
        assert(rest@ =~= h2.take(app as int));
        assert(tenant@ =~= h2.subrange(app + 1, h2.len() as int));
    }
    Some((rest, tenant))
}

/// Path prefix derived from a residual: an empty residual means no prefix;
/// otherwise one trailing dot, if present, is stripped.
pub open spec fn spec_path_prefix(residual: Seq<char>) -> Option<Seq<char>> {
    if residual.len() == 0 {
        None
    } else if residual.last() == '.' {
        Some(residual.drop_last())
    } else {
        Some(residual)
    }
}

/// The per-connection routing key offered to the transport engine: the
/// tenant span of the parsed hostname, with the residual turned into a path
/// prefix.
pub open spec fn spec_peer_key(host: Seq<char>, base: Seq<char>) -> Option<
    (Seq<char>, Option<Seq<char>>),
> {
    match spec_parse_host(host, base) {
        None => None,
        Some(p) => Some((p.1, spec_path_prefix(p.0))),
    }
}

/// Parse `host` against the base domain `hostname` and shape the result as
/// `(tenant, path_prefix)` for the transport engine, exactly as
/// `spec_peer_key` describes.
pub fn peer_key(host: &str, hostname: &str) -> (r: Option<(String, Option<String>)>)
    ensures
        match (r, spec_peer_key(host@, hostname@)) {
            (Some(p), Some(q)) => p.0@ == q.0 && (match (p.1, q.1) {
                (Some(a), Some(b)) => a@ == b,
                (None, None) => true,
                _ => false,
            }),
            (None, None) => true,
            _ => false,
        },
{
    match parse_host(host, hostname) {
        None => None,
        Some((residual, tenant)) => {
            let rl = residual.unicode_len();
            let prefix = if rl == 0 {
                None
            } else if residual.get_char(rl - 1) == '.' {
                let stripped = residual.substring_char(0, rl - 1);
                proof {
                    assert(stripped@ =~= residual@.drop_last());
                }
                Some(stripped.to_owned())
            } else {
                Some(residual.to_owned())
            };
            Some((tenant.to_owned(), prefix))
        },
    }
}

/// The base domain alone has no labels in front of it, so it never parses.
pub proof fn lemma_parse_base_itself(base: Seq<char>)
    ensures
        spec_parse_host(base, base) is None,
{
    assert(base.subrange(base.len() - base.len(), base.len() as int) =~= base);
    assert(base.take(base.len() - base.len()).len() == 0);
}

/// A single dot-free label in front of the base domain is not enough: the
/// stripped prefix holds no further dot.
pub proof fn lemma_parse_one_label(environment: Seq<char>, base: Seq<char>)
    requires
        forall|j: int| 0 <= j < environment.len() ==> environment[j] != '.',
    ensures
        spec_parse_host(environment + seq!['.'] + base, base) is None,
{
    let host = environment + seq!['.'] + base;
    assert(ends_with(host, base)) by {
        assert(host.subrange(host.len() - base.len(), host.len() as int) =~= base);
    }
    let h1 = host.take(host.len() - base.len());
    assert(h1 =~= environment + seq!['.']);
    assert(h1.last() == '.');
    let h2 = h1.drop_last();
    assert(h2 =~= environment);
    lemma_rfind_dot_none(h2, h2.len() as int);
}

/// Two dot-free labels in front of the base domain are still insufficient:
/// only one dot remains after stripping, and the grammar needs two.
pub proof fn lemma_parse_two_labels(tenant: Seq<char>, environment: Seq<char>, base: Seq<char>)
    requires
        forall|j: int| 0 <= j < tenant.len() ==> tenant[j] != '.',
        forall|j: int| 0 <= j < environment.len() ==> environment[j] != '.',
    ensures
        spec_parse_host(tenant + seq!['.'] + environment + seq!['.'] + base, base) is None,
{
    let host = tenant + seq!['.'] + environment + seq!['.'] + base;
    let tl = tenant.len() as int;
    assert(ends_with(host, base)) by {
        assert(host.subrange(host.len() - base.len(), host.len() as int) =~= base);
    }
    let h1 = host.take(host.len() - base.len());
    assert(h1 =~= tenant + seq!['.'] + environment + seq!['.']);
    assert(h1.last() == '.');
    let h2 = h1.drop_last();
    assert(h2 =~= tenant + seq!['.'] + environment);
    assert(h2[tl] == '.');
    assert(forall|j: int| tl < j < h2.len() ==> h2[j] == environment[j - tl - 1] && h2[j] != '.');
    lemma_rfind_dot_found(h2, h2.len() as int, tl);
    assert(forall|j: int| 0 <= j < tl ==> h2[j] == tenant[j] && h2[j] != '.');
    lemma_rfind_dot_none(h2, tl);
}

/// No dot strictly before `from` means the backwards search finds nothing.
pub proof fn lemma_rfind_dot_none(s: Seq<char>, from: int)
    requires
        from <= s.len(),
        forall|j: int| 0 <= j < from ==> s[j] != '.',
    ensures
        rfind_dot(s, from) is None,
    decreases from,
{
    if from <= 0 {
    } else {
        assert(s[from - 1] != '.');
        lemma_rfind_dot_none(s, from - 1);
    }
}

/// Round trip of the grammar: a well-formed hostname assembled from a
/// non-empty residual, a dot-free tenant label, a non-empty dot-free
/// environment label and the base domain parses back to the residual and
/// the tenant span `tenant.environment`.
pub proof fn lemma_parse_compose(
    residual: Seq<char>,
    tenant: Seq<char>,
    environment: Seq<char>,
    base: Seq<char>,
)
    requires
        residual.len() > 0,
        environment.len() > 0,
        forall|j: int| 0 <= j < tenant.len() ==> tenant[j] != '.',
        forall|j: int| 0 <= j < environment.len() ==> environment[j] != '.',
    ensures
        spec_parse_host(
            residual + seq!['.'] + tenant + seq!['.'] + environment + seq!['.'] + base,
            base,
        ) == Some((residual, tenant + seq!['.'] + environment)),
{
    let host = residual + seq!['.'] + tenant + seq!['.'] + environment + seq!['.'] + base;
    let rl = residual.len() as int;
    let tl = tenant.len() as int;
    assert(ends_with(host, base)) by {
        assert(host.subrange(host.len() - base.len(), host.len() as int) =~= base);
    }
    let h1 = host.take(host.len() - base.len());
    assert(h1 =~= residual + seq!['.'] + tenant + seq!['.'] + environment + seq!['.']);
    assert(h1.last() == '.');
    let h2 = h1.drop_last();
    assert(h2 =~= residual + seq!['.'] + tenant + seq!['.'] + environment);
    assert(h2[rl + 1 + tl] == '.');
    assert(forall|j: int| rl + 1 + tl < j < h2.len() ==> h2[j] == environment[
        j - (rl + 1 + tl) - 1
    ] && h2[j] != '.');
    lemma_rfind_dot_found(h2, h2.len() as int, rl + 1 + tl);
    assert(h2[rl] == '.');
    assert(forall|j: int| rl < j < rl + 1 + tl ==> h2[j] == tenant[j - rl - 1] && h2[j] != '.');
    lemma_rfind_dot_found(h2, rl + 1 + tl, rl);
    assert(h2.take(rl) =~= residual);
    assert(h2.subrange(rl + 1, h2.len() as int) =~= tenant + seq!['.'] + environment);
}

/// The grammar demands the base domain as a proper dot-delimited suffix: a
/// host that lacks it — wrong suffix, equal to the base, or with the base
/// reached without a separating dot — never parses.
pub proof fn lemma_parse_needs_dot_suffix(host: Seq<char>, base: Seq<char>)
    requires
        !(host.len() > base.len() && ends_with(host, base) && host[host.len() - base.len()
            - 1] == '.'),
    ensures
        spec_parse_host(host, base) is None,
{
    if ends_with(host, base) {
        let h1 = host.take(host.len() - base.len());
        if host.len() == base.len() {
            assert(h1.len() == 0);
        } else {
            assert(h1.last() == host[host.len() - base.len() - 1]);
        }
    }
}

} // verus!
