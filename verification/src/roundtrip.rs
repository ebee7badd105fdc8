//! The round-trip law: a body serialized from well-formed parts decodes to
//! exactly those parts, byte for byte.
use vstd::prelude::*;

use crate::scan::find_spec;
use crate::scan::lemma_find_spec_is_first;
use crate::scan::matches_at;
use crate::decode::spec_parse_dispo;
use crate::decode::spec_parse_hdr_lines;
use crate::decode::spec_parse_lines;
use crate::wire::HeaderView;
use crate::wire::PartView;
use crate::wire::lemma_literals_clean;
use crate::wire::line_clean;
use crate::wire::spec_cd_prefix;
use crate::wire::spec_crlf;
use crate::wire::spec_ct_prefix;
use crate::wire::spec_dashdash;
use crate::wire::spec_delim;
use crate::wire::spec_disposition_line;
use crate::wire::spec_disposition_prefix;
use crate::wire::spec_fd_name;
use crate::wire::spec_filename_mid;
use crate::wire::spec_hdr_lines;
use crate::wire::spec_quote;

verus! {

/// A payload that the scanner can frame: the payload-end delimiter first
/// occurs exactly where the encoder puts it, never earlier.
pub open spec fn payload_ok(p: Seq<u8>, d: Seq<u8>) -> bool {
    forall|i: int| 0 <= i < p.len() ==> !matches_at(p + d, d, i)
}

/// A payload holding no carriage return can never start a delimiter.
pub proof fn lemma_no_cr_payload_ok(p: Seq<u8>, b: Seq<u8>)
    requires
        forall|i: int| 0 <= i < p.len() ==> p[i] != 13u8,
    ensures
        payload_ok(p, spec_delim(b)),
{
    let d = spec_delim(b);
    assert forall|i: int| 0 <= i < p.len() implies !matches_at(p + d, d, i) by {
        if matches_at(p + d, d, i) {
            assert((p + d)[i + 0] == d[0]);
            assert(d[0] == 13u8);
            assert((p + d)[i] == p[i]);
        }
    }
}

/// A disposition line never holds a line break.
pub proof fn lemma_disposition_line_clean(h: HeaderView)
    requires
        h.wf(),
    ensures
        line_clean(spec_disposition_line(h)),
{
    lemma_literals_clean();
    let dl = spec_disposition_line(h);
    let pre = spec_disposition_prefix();
    assert forall|i: int| 0 <= i < dl.len() implies dl[i] != 13u8 && dl[i] != 10u8 by {
        let base = pre + h.name + spec_quote();
        match h.filename {
            None => {
                assert(dl == base + Seq::<u8>::empty());
                assert(dl =~= base);
                if i < pre.len() {
                    assert(dl[i] == pre[i]);
                } else if i < pre.len() + h.name.len() {
                    assert(dl[i] == h.name[i - pre.len()]);
                } else {
                    assert(dl[i] == 34u8);
                }
            },
            Some(f) => {
                let ext = spec_filename_mid() + f + spec_quote();
                assert(dl == base + ext);
                if i < base.len() {
                    if i < pre.len() {
                        assert(dl[i] == pre[i]);
                    } else if i < pre.len() + h.name.len() {
                        assert(dl[i] == h.name[i - pre.len()]);
                    } else {
                        assert(dl[i] == 34u8);
                    }
                } else {
                    let j = i - base.len();
                    assert(dl[i] == ext[j]);
                    if j < spec_filename_mid().len() {
                        assert(ext[j] == spec_filename_mid()[j]);
                    } else if j < spec_filename_mid().len() + f.len() {
                        assert(ext[j] == f[j - spec_filename_mid().len()]);
                    } else {
                        assert(ext[j] == 34u8);
                    }
                }
            },
        }
    }
}

/// Parsing the attribute text the encoder writes gives the name and the
/// file name back.
pub proof fn lemma_parse_dispo_inverse(h: HeaderView)
    requires
        h.wf(),
    ensures
        spec_parse_dispo(
            spec_fd_name() + h.name + spec_quote() + (match h.filename {
                Some(f) => spec_filename_mid() + f + spec_quote(),
                None => Seq::<u8>::empty(),
            }),
        ) == Some((h.name, h.filename)),
{
    let fd = spec_fd_name();
    let n = h.name;
    let ext: Seq<u8> = match h.filename {
        Some(f) => spec_filename_mid() + f + spec_quote(),
        None => Seq::<u8>::empty(),
    };
    let s = fd + n + spec_quote() + ext;
    assert(fd.len() == 17);
    assert forall|j: int| 0 <= j < fd.len() implies s[j] == fd[j] by {}
    assert(matches_at(s, fd, 0));
    let qpos = 17 + n.len() as int;
    assert(s[qpos] == 34u8) by {
        assert(((fd + n) + spec_quote())[qpos] == 34u8);
        assert(s[qpos] == ((fd + n) + spec_quote())[qpos]);
    }
    assert(matches_at(s, spec_quote(), qpos));
    assert forall|k: int| 17 <= k < qpos implies !matches_at(s, spec_quote(), k) by {
        assert(s[k] == n[k - 17]);
        assert(n[k - 17] != 34u8);
        if matches_at(s, spec_quote(), k) {
            assert(s[k] == 34u8);
        }
    }
    lemma_find_spec_is_first(s, spec_quote(), 17, qpos);
    assert(find_spec(s, spec_quote(), 17) == Some(qpos));
    assert(s.subrange(17, qpos) =~= n);
    let rem = s.skip(qpos + 1);
    assert(rem =~= ext);
    match h.filename {
        None => {
            assert(rem.len() == 0);
        },
        Some(f) => {
            let mid = spec_filename_mid();
            assert(mid.len() == 12);
            assert forall|j: int| 0 <= j < mid.len() implies rem[j] == mid[j] by {
                assert(ext[j] == mid[j]);
            }
            assert(matches_at(rem, mid, 0));
            let q2 = 12 + f.len() as int;
            assert(rem[q2] == 34u8) by {
                assert(ext[q2] == ((mid + f) + spec_quote())[q2]);
            }
            assert(matches_at(rem, spec_quote(), q2));
            assert forall|k: int| 12 <= k < q2 implies !matches_at(rem, spec_quote(), k) by {
                assert(rem[k] == f[k - 12]);
                assert(f[k - 12] != 34u8);
                if matches_at(rem, spec_quote(), k) {
                    assert(rem[k] == 34u8);
                }
            }
            lemma_find_spec_is_first(rem, spec_quote(), 12, q2);
            assert(find_spec(rem, spec_quote(), 12) == Some(q2));
            assert(q2 == rem.len() - 1);
            assert(rem.subrange(12, q2) =~= f);
        },
    }
}

/// Parsing the header block the encoder writes gives the headers back.
#[verifier::rlimit(100)]
pub proof fn lemma_parse_hdr_lines_inverse(h: HeaderView)
    requires
        h.wf(),
    ensures
        spec_parse_hdr_lines(spec_hdr_lines(h)) == Some(h),
{
    lemma_literals_clean();
    lemma_disposition_line_clean(h);
    let dl = spec_disposition_line(h);
    let ctpart: Seq<u8> = match h.content_type {
        Some(c) => spec_ct_prefix() + c + spec_crlf(),
        None => Seq::<u8>::empty(),
    };
    let region = dl + spec_crlf() + ctpart;
    assert(region == spec_hdr_lines(h));
    // The first line break sits exactly at the end of the disposition line.
    let e1 = dl.len() as int;
    assert(region[e1] == 13u8) by {
        assert(((dl + spec_crlf()) + ctpart)[e1] == (dl + spec_crlf())[e1]);
    }
    assert(region[e1 + 1] == 10u8) by {
        assert(((dl + spec_crlf()) + ctpart)[e1 + 1] == (dl + spec_crlf())[e1 + 1]);
    }
    assert(matches_at(region, spec_crlf(), e1));
    assert forall|k: int| 0 <= k < e1 implies !matches_at(region, spec_crlf(), k) by {
        assert(region[k] == dl[k]);
        if matches_at(region, spec_crlf(), k) {
            assert(region[k] == 13u8);
        }
    }
    lemma_find_spec_is_first(region, spec_crlf(), 0, e1);
    assert(find_spec(region, spec_crlf(), 0) == Some(e1));
    let line1 = region.subrange(0, e1);
    assert(line1 =~= dl);
    // The disposition line starts with the disposition header name.
    assert forall|j: int| 0 <= j < spec_cd_prefix().len() implies line1[j]
        == spec_cd_prefix()[j] by {
        assert(dl[j] == spec_disposition_prefix()[j]);
        assert(spec_disposition_prefix()[j] == spec_cd_prefix()[j]);
    }
    assert(matches_at(line1, spec_cd_prefix(), 0));
    let attrs = line1.skip(21);
    let ext: Seq<u8> = match h.filename {
        Some(f) => spec_filename_mid() + f + spec_quote(),
        None => Seq::<u8>::empty(),
    };
    assert(attrs =~= spec_fd_name() + h.name + spec_quote() + ext) by {
        assert(dl == spec_cd_prefix() + spec_fd_name() + h.name + spec_quote() + ext || dl
            == (spec_cd_prefix() + spec_fd_name()) + h.name + spec_quote() + ext);
        assert(spec_disposition_prefix() == spec_cd_prefix() + spec_fd_name());
    }
    lemma_parse_dispo_inverse(h);
    assert(spec_parse_dispo(attrs) == Some((h.name, h.filename)));
    let tail1 = region.skip(e1 + 2);
    assert(tail1 =~= ctpart);
    match h.content_type {
        None => {
            assert(tail1.len() == 0);
            assert(spec_parse_lines(tail1, Some((h.name, h.filename)), None) == Some(
                HeaderView { name: h.name, filename: h.filename, content_type: None },
            ));
            assert(h == HeaderView { name: h.name, filename: h.filename, content_type: None });
        },
        Some(c) => {
            let ctline = spec_ct_prefix() + c;
            assert(tail1 == spec_ct_prefix() + c + spec_crlf());
            assert(tail1 =~= ctline + spec_crlf());
            let e2 = ctline.len() as int;
            assert(tail1[e2] == 13u8) by {
                assert((ctline + spec_crlf())[e2] == 13u8);
            }
            assert(tail1[e2 + 1] == 10u8) by {
                assert((ctline + spec_crlf())[e2 + 1] == 10u8);
            }
            assert(matches_at(tail1, spec_crlf(), e2));
            assert forall|k: int| 0 <= k < e2 implies !matches_at(tail1, spec_crlf(), k) by {
                assert(tail1[k] == ctline[k]);
                if k < spec_ct_prefix().len() {
                    assert(ctline[k] == spec_ct_prefix()[k]);
                } else {
                    assert(ctline[k] == c[k - spec_ct_prefix().len()]);
                }
                if matches_at(tail1, spec_crlf(), k) {
                    assert(tail1[k] == 13u8);
                }
            }
            lemma_find_spec_is_first(tail1, spec_crlf(), 0, e2);
            assert(find_spec(tail1, spec_crlf(), 0) == Some(e2));
            let line2 = tail1.subrange(0, e2);
            assert(line2 =~= ctline);
            // A content-type line is no disposition line: byte 8 differs.
            assert(!matches_at(line2, spec_cd_prefix(), 0)) by {
                if matches_at(line2, spec_cd_prefix(), 0) {
                    assert(line2[8] == spec_cd_prefix()[8]);
                    assert(spec_cd_prefix()[8] == 68u8);
                    assert(line2[8] == spec_ct_prefix()[8]);
                    assert(spec_ct_prefix()[8] == 84u8);
                }
            }
            assert forall|j: int| 0 <= j < spec_ct_prefix().len() implies line2[j]
                == spec_ct_prefix()[j] by {
                assert(ctline[j] == spec_ct_prefix()[j]);
            }
            assert(matches_at(line2, spec_ct_prefix(), 0));
            assert(line2.skip(14) =~= c);
            let tail2 = tail1.skip(e2 + 2);
            assert(tail2.len() == 0);
            assert(spec_parse_lines(tail2, Some((h.name, h.filename)), Some(c)) == Some(
                HeaderView { name: h.name, filename: h.filename, content_type: Some(c) },
            ));
            assert(h == HeaderView {
                name: h.name,
                filename: h.filename,
                content_type: Some(c),
            });
        },
    }
}

/// A match inside an aligned window of the haystack is a match in the
/// window.
pub proof fn lemma_matches_in_window(big: Seq<u8>, small: Seq<u8>, a: int, n: Seq<u8>, i: int)
    requires
        0 <= a,
        a + small.len() <= big.len(),
        small == big.subrange(a, a + small.len() as int),
        0 <= i,
        i + n.len() <= small.len(),
    ensures
        matches_at(big, n, a + i) == matches_at(small, n, i),
{
    if matches_at(big, n, a + i) {
        assert forall|j: int| 0 <= j < n.len() implies small[i + j] == n[j] by {
            assert(small[i + j] == big[a + i + j]);
        }
        assert(matches_at(small, n, i));
    }
    if matches_at(small, n, i) {
        assert forall|j: int| 0 <= j < n.len() implies big[a + i + j] == n[j] by {
            assert(small[i + j] == big[a + i + j]);
        }
        assert(matches_at(big, n, a + i));
    }
}

/// What the decoder's scanner makes of one encoded part followed by
/// anything at all: exactly that part, ending right at its delimiter.
#[verifier::rlimit(100)]
pub proof fn lemma_scan_chunk(b: Seq<u8>, h: HeaderView, p: Seq<u8>, tail2: Seq<u8>)
    requires
        h.wf(),
        payload_ok(p, spec_delim(b)),
    ensures
        ({
            let hl = spec_hdr_lines(h);
            let rest = spec_crlf() + hl + spec_crlf() + p + spec_crlf() + spec_dashdash() + b
                + tail2;
            let next = 8 + hl.len() + p.len() + b.len();
            &&& crate::decode::spec_scan(rest, b) == (crate::decode::ScanStep::Part {
                header: h,
                payload: p,
                next: next as int,
            })
            &&& rest.skip(next as int) == tail2
        }),
{
    lemma_literals_clean();
    lemma_disposition_line_clean(h);
    let hl = spec_hdr_lines(h);
    let dl = spec_disposition_line(h);
    let hn = hl.len() as int;
    let a1 = spec_crlf() + hl;
    let a2 = a1 + spec_crlf();
    let a3 = a2 + p;
    let a4 = a3 + spec_crlf();
    let a5 = a4 + spec_dashdash();
    let a6 = a5 + b;
    let rest = a6 + tail2;
    assert(rest == spec_crlf() + hl + spec_crlf() + p + spec_crlf() + spec_dashdash() + b
        + tail2);
    assert(hl[hn - 2] == 13u8 && hl[hn - 1] == 10u8) by {
        match h.content_type {
            None => {
                assert(hl =~= dl + spec_crlf());
                assert((dl + spec_crlf())[hn - 2] == 13u8);
                assert((dl + spec_crlf())[hn - 1] == 10u8);
            },
            Some(c) => {
                let ctpart = spec_ct_prefix() + c + spec_crlf();
                assert(hl == dl + spec_crlf() + ctpart);
                assert(hl[hn - 2] == ctpart[ctpart.len() - 2]);
                assert(ctpart[ctpart.len() - 2] == 13u8);
                assert(hl[hn - 1] == ctpart[ctpart.len() - 1]);
                assert(ctpart[ctpart.len() - 1] == 10u8);
            },
        }
    }
    assert(rest[0] == 13u8 && rest[1] == 10u8) by {
        assert(rest[0] == a1[0]);
        assert(a1[0] == spec_crlf()[0]);
        assert(rest[1] == a1[1]);
        assert(a1[1] == spec_crlf()[1]);
    }
    assert forall|j: int| 0 <= j < hn implies rest[2 + j] == hl[j] by {
        assert(rest[2 + j] == a1[2 + j]);
        assert(a1[2 + j] == hl[j]);
    }
    assert(rest[hn + 2] == 13u8 && rest[hn + 3] == 10u8) by {
        assert(rest[hn + 2] == a2[hn + 2]);
        assert(a2[hn + 2] == spec_crlf()[0]);
        assert(rest[hn + 3] == a2[hn + 3]);
        assert(a2[hn + 3] == spec_crlf()[1]);
    }
    assert(matches_at(rest, crate::wire::spec_crlf2(), hn)) by {
        assert(rest[hn] == hl[hn - 2]);
        assert(rest[hn + 1] == hl[hn - 1]);
        assert(crate::wire::spec_crlf2()[0] == 13u8);
        assert(crate::wire::spec_crlf2()[1] == 10u8);
        assert(crate::wire::spec_crlf2()[2] == 13u8);
        assert(crate::wire::spec_crlf2()[3] == 10u8);
    }
    assert forall|k: int| 2 <= k < hn implies !matches_at(rest, crate::wire::spec_crlf2(), k) by {
        let j = k - 2;
        if matches_at(rest, crate::wire::spec_crlf2(), k) {
            assert(rest[k] == crate::wire::spec_crlf2()[0]);
            assert(rest[k] == 13u8);
            assert(rest[k] == hl[j]);
            match h.content_type {
                None => {
                    assert(hl =~= dl + spec_crlf());
                    if j < dl.len() {
                        assert(hl[j] == dl[j]);
                        assert(dl[j] != 13u8);
                    } else {
                        assert(j == dl.len() || j == dl.len() + 1);
                        assert(j >= hn - 2);
                    }
                },
                Some(c) => {
                    let ctpart = spec_ct_prefix() + c + spec_crlf();
                    assert(hl == dl + spec_crlf() + ctpart);
                    let base = dl + spec_crlf();
                    if j < dl.len() {
                        assert(hl[j] == base[j]);
                        assert(base[j] == dl[j]);
                        assert(dl[j] != 13u8);
                    } else if j == dl.len() {
                        assert(rest[k + 2] == crate::wire::spec_crlf2()[2]);
                        assert(rest[k + 2] == hl[j + 2]);
                        assert(hl[j + 2] == ctpart[0]);
                        assert(ctpart[0] == spec_ct_prefix()[0]);
                        assert(spec_ct_prefix()[0] == 67u8);
                    } else if j == dl.len() + 1 {
                        assert(hl[j] == base[j]);
                        assert(base[j] == spec_crlf()[1]);
                    } else {
                        let t = j - base.len();
                        assert(hl[j] == ctpart[t]);
                        if t < spec_ct_prefix().len() {
                            assert(ctpart[t] == spec_ct_prefix()[t]);
                            assert(spec_ct_prefix()[t] != 13u8);
                        } else if t < spec_ct_prefix().len() + c.len() {
                            assert(ctpart[t] == c[t - spec_ct_prefix().len()]);
                        } else {
                            assert(t >= ctpart.len() - 2);
                            assert(j >= hn - 2);
                        }
                    }
                },
            }
        }
    }
    assert(hn >= 2);
    lemma_find_spec_is_first(rest, crate::wire::spec_crlf2(), 2, hn);
    assert(find_spec(rest, crate::wire::spec_crlf2(), 2) == Some(hn));
    assert(rest.subrange(2, hn + 2) =~= hl);
    lemma_parse_hdr_lines_inverse(h);
    assert(spec_parse_hdr_lines(rest.subrange(2, hn + 2)) == Some(h));
    let d = spec_delim(b);
    let epos = hn + 4 + p.len() as int;
    assert(matches_at(rest, d, epos)) by {
        assert forall|j: int| 0 <= j < d.len() implies rest[epos + j] == d[j] by {
            if j < 2 {
                assert(rest[epos + j] == a4[epos + j]);
                assert(a4[epos + j] == spec_crlf()[j]);
                assert(d[j] == spec_crlf()[j]);
            } else if j < 4 {
                assert(rest[epos + j] == a5[epos + j]);
                assert(a5[epos + j] == spec_dashdash()[j - 2]);
                assert(d[j] == spec_dashdash()[j - 2]);
            } else {
                assert(rest[epos + j] == a6[epos + j]);
                assert(a6[epos + j] == b[j - 4]);
                assert(d[j] == b[j - 4]);
            }
        }
    }
    let window = p + d;
    assert(window == rest.subrange(hn + 4, epos + d.len() as int)) by {
        assert(rest.subrange(hn + 4, epos + d.len() as int) =~= window);
    }
    assert forall|k: int| hn + 4 <= k < epos implies !matches_at(rest, d, k) by {
        let i = k - (hn + 4);
        lemma_matches_in_window(rest, window, hn + 4, d, i);
        assert(!matches_at(window, d, i));
    }
    lemma_find_spec_is_first(rest, d, hn + 4, epos);
    assert(find_spec(rest, d, hn + 4) == Some(epos));
    assert(rest.subrange(hn + 4, epos) =~= p);
    assert(rest.skip(epos + 4 + b.len() as int) =~= tail2);
}

/// Every part can be framed and read back: its header is well formed and
/// its payload never fakes the delimiter.
pub open spec fn parts_wf(b: Seq<u8>, parts: Seq<PartView>) -> bool {
    forall|i: int| 0 <= i < parts.len() ==> (#[trigger] parts[i]).header.wf() && payload_ok(
        parts[i].payload,
        spec_delim(b),
    )
}

/// The suffix of a serialized body after a consumed `--boundary`.
pub open spec fn spec_rest(b: Seq<u8>, parts: Seq<PartView>) -> Seq<u8>
    decreases parts.len(),
{
    if parts.len() == 0 {
        spec_dashdash() + spec_crlf()
    } else {
        spec_crlf() + spec_hdr_lines(parts[0].header) + spec_crlf() + parts[0].payload
            + spec_crlf() + spec_dashdash() + b + spec_rest(b, parts.drop_first())
    }
}

/// A serialized body is `--boundary` followed by its suffix form.
pub proof fn lemma_body_is_rest(b: Seq<u8>, parts: Seq<PartView>)
    ensures
        crate::wire::spec_body(b, parts) == spec_dashdash() + b + spec_rest(b, parts),
    decreases parts.len(),
{
    if parts.len() == 0 {
        assert(crate::wire::spec_body(b, parts) =~= spec_dashdash() + b + spec_rest(b, parts));
    } else {
        lemma_body_is_rest(b, parts.drop_first());
        assert(crate::wire::spec_body(b, parts) =~= spec_dashdash() + b + spec_rest(b, parts));
    }
}

/// Scanning the suffix form of well-formed parts delivers exactly those
/// parts.
#[verifier::rlimit(100)]
pub proof fn lemma_parts_from_rest(b: Seq<u8>, parts: Seq<PartView>)
    requires
        parts_wf(b, parts),
    ensures
        crate::decode::spec_parts_from(spec_rest(b, parts), b) == Some(parts),
    decreases parts.len(),
{
    let rest = spec_rest(b, parts);
    if parts.len() == 0 {
        assert(rest[0] == 45u8) by {
            assert(rest[0] == spec_dashdash()[0]);
        }
        assert(rest[1] == 45u8) by {
            assert(rest[1] == spec_dashdash()[1]);
        }
        assert(crate::decode::spec_scan(rest, b) is End);
        assert(parts =~= Seq::<PartView>::empty());
    } else {
        let h = parts[0].header;
        let p = parts[0].payload;
        let t = parts.drop_first();
        assert(parts[0].header.wf() && payload_ok(parts[0].payload, spec_delim(b)));
        lemma_scan_chunk(b, h, p, spec_rest(b, t));
        let hl = spec_hdr_lines(h);
        let next = 8 + hl.len() + p.len() + b.len();
        assert(crate::decode::spec_scan(rest, b) == (crate::decode::ScanStep::Part {
            header: h,
            payload: p,
            next: next as int,
        }));
        assert(1 <= next as int <= rest.len());
        assert(rest.skip(next as int) == spec_rest(b, t));
        assert forall|i: int| 0 <= i < t.len() implies (#[trigger] t[i]).header.wf()
            && payload_ok(t[i].payload, spec_delim(b)) by {
            assert(parts[i + 1].header.wf() && payload_ok(parts[i + 1].payload, spec_delim(b)));
        }
        lemma_parts_from_rest(b, t);
        assert(crate::decode::spec_parts_from(rest, b) == Some(
            seq![PartView { header: h, payload: p }] + t,
        ));
        assert(PartView { header: h, payload: p } == parts[0]);
        assert(seq![parts[0]] + t =~= parts);
    }
}

/// The round-trip law: serializing any well-formed parts and decoding the
/// body with the same boundary yields exactly the original parts, in
/// order, byte for byte.
pub proof fn lemma_round_trip(b: Seq<u8>, parts: Seq<PartView>)
    requires
        parts_wf(b, parts),
    ensures
        crate::decode::spec_decode(crate::wire::spec_body(b, parts), b) == Some(parts),
{
    lemma_body_is_rest(b, parts);
    let body = crate::wire::spec_body(b, parts);
    let ddb = spec_dashdash() + b;
    assert(matches_at(body, ddb, 0)) by {
        assert forall|j: int| 0 <= j < ddb.len() implies body[j] == ddb[j] by {
            assert(body == ddb + spec_rest(b, parts));
            assert((ddb + spec_rest(b, parts))[j] == ddb[j]);
        }
    }
    assert(body.skip(2 + b.len() as int) =~= spec_rest(b, parts));
    lemma_parts_from_rest(b, parts);
}

/// A payload that is literally `--` plus the session's own boundary token
/// still frames correctly: without the line-start break before it, it can
/// never be taken for a delimiter.
pub proof fn lemma_boundary_lookalike_payload_ok(b: Seq<u8>)
    requires
        crate::wire::boundary_token_ok(b),
    ensures
        payload_ok(spec_dashdash() + b, spec_delim(b)),
{
    let p = spec_dashdash() + b;
    assert forall|i: int| 0 <= i < p.len() implies p[i] != 13u8 by {
        if i < 2 {
            assert(p[i] == 45u8);
        } else {
            assert(p[i] == b[i - 2]);
            assert(crate::wire::is_alnum_or_dash(b[i - 2]));
        }
    }
    lemma_no_cr_payload_ok(p, b);
}

/// A practical sufficient condition for framing: fields whose header
/// tokens are clean and whose payloads hold no carriage return at all are
/// always well formed, whatever the boundary.
pub proof fn lemma_cr_free_parts_wf(b: Seq<u8>, parts: Seq<PartView>)
    requires
        forall|i: int| 0 <= i < parts.len() ==> (#[trigger] parts[i]).header.wf(),
        forall|i: int, j: int|
            0 <= i < parts.len() && 0 <= j < parts[i].payload.len() ==> #[trigger] parts[i]
                .payload[j] != 13u8,
    ensures
        parts_wf(b, parts),
{
    assert forall|i: int| 0 <= i < parts.len() implies (#[trigger] parts[i]).header.wf()
        && payload_ok(parts[i].payload, spec_delim(b)) by {
        assert forall|j: int| 0 <= j < parts[i].payload.len() implies parts[i].payload[j]
            != 13u8 by {}
        lemma_no_cr_payload_ok(parts[i].payload, b);
    }
}

} // verus!
