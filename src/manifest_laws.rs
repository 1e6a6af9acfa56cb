//! Why rewriting a manifest twice changes nothing the second time.
//!
//! The rewrite compacts the document, sets its version and lays it out
//! again. Laying out only adds white space outside strings, so compacting the
//! result gives back the rewritten compact text; that text is itself compact;
//! and setting the same version in it again is the identity.
use vstd::prelude::*;
use crate::manifest::{
    BACKSLASH, CLOSE_BRACE, CLOSE_BRACKET, COLON, COMMA, Layout, NEWLINE, Phase, QUOTE, Retag,
    SPACE, Scan, check_from, check_run, check_step, num_complete, word, compact_from, compact_run, compacted, depth_step, indent,
    is_manifest, is_ws, laid_out_json, layout_run, layout_step, quoted, retag_from, retag_run,
    retag_start, retag_step, retagged, scan_start, scan_step, synchronized, version_key, Mode,
    OPEN_BRACE, OPEN_BRACKET,
};
use crate::version::{Version, dotted, lemma_decimal, is_digit};

verus! {

/// Bytes that never change the string state: neither quote nor backslash.
pub open spec fn plain_text(t: Seq<u8>) -> bool {
    forall|i: int| 0 <= i < t.len() ==> t[i] != QUOTE && t[i] != BACKSLASH
}

pub open spec fn all_ws(w: Seq<u8>) -> bool {
    forall|i: int| 0 <= i < w.len() ==> is_ws(#[trigger] w[i])
}

pub open spec fn outside() -> Scan {
    scan_start()
}

/// A string state that is consistent: outside a string there is no pending
/// backslash.
pub open spec fn scan_ok(st: Scan) -> bool {
    !st.in_str ==> !st.esc
}

pub proof fn lemma_compact_concat(st: Scan, a: Seq<u8>, b: Seq<u8>)
    ensures
        compact_from(st, a + b) == (
            compact_from(compact_from(st, a).0, b).0,
            compact_from(st, a).1 + compact_from(compact_from(st, a).0, b).1,
        ),
    decreases b.len(),
{
    let (m, o1) = compact_from(st, a);
    if b.len() == 0 {
        assert(a + b =~= a);
        assert(o1 + Seq::<u8>::empty() =~= o1);
    } else {
        lemma_compact_concat(st, a, b.drop_last());
        assert((a + b).drop_last() =~= a + b.drop_last());
        assert((a + b).last() == b.last());
        let o2 = compact_from(m, b.drop_last()).1;
        assert((o1 + o2).push(b.last()) =~= o1 + o2.push(b.last()));
    }
}

pub proof fn lemma_retag_concat(st: Retag, a: Seq<u8>, b: Seq<u8>, q: Seq<u8>)
    ensures
        retag_from(st, a + b, q) == (
            retag_from(retag_from(st, a, q).0, b, q).0,
            retag_from(st, a, q).1 + retag_from(retag_from(st, a, q).0, b, q).1,
        ),
    decreases b.len(),
{
    let (m, o1) = retag_from(st, a, q);
    if b.len() == 0 {
        assert(a + b =~= a);
        assert(o1 + Seq::<u8>::empty() =~= o1);
    } else {
        lemma_retag_concat(st, a, b.drop_last(), q);
        assert((a + b).drop_last() =~= a + b.drop_last());
        assert((a + b).last() == b.last());
        let (m2, o2) = retag_from(m, b.drop_last(), q);
        let e = retag_step(m2, q, b.last()).1;
        assert((o1 + o2) + e =~= o1 + (o2 + e));
    }
}

pub proof fn lemma_compact_one(st: Scan, b: u8)
    ensures
        compact_from(st, seq![b]) == (scan_step(st, b), if !st.in_str && is_ws(b) {
            Seq::<u8>::empty()
        } else {
            seq![b]
        }),
{
    assert(seq![b].drop_last() =~= Seq::<u8>::empty());
    assert(compact_from(st, Seq::<u8>::empty()) == (st, Seq::<u8>::empty()));
    assert(Seq::<u8>::empty().push(b) =~= seq![b]);
}

pub proof fn lemma_retag_one(st: Retag, b: u8, q: Seq<u8>)
    ensures
        retag_from(st, seq![b], q) == retag_step(st, q, b),
{
    assert(seq![b].drop_last() =~= Seq::<u8>::empty());
    assert(retag_from(st, Seq::<u8>::empty(), q) == (st, Seq::<u8>::empty()));
    assert(Seq::<u8>::empty() + retag_step(st, q, b).1 =~= retag_step(st, q, b).1);
}

/// White space read outside a string is dropped and changes nothing.
pub proof fn lemma_compact_ws(w: Seq<u8>)
    requires
        all_ws(w),
    ensures
        compact_from(outside(), w) == (outside(), Seq::<u8>::empty()),
    decreases w.len(),
{
    if w.len() > 0 {
        lemma_compact_ws(w.drop_last());
        assert(is_ws(w[w.len() - 1]));
    }
}

/// Compacting twice is compacting once.
pub proof fn lemma_compact_idempotent(s: Seq<u8>)
    ensures
        compact_from(scan_start(), compact_run(s).1) == compact_run(s),
        scan_ok(compact_run(s).0),
    decreases s.len(),
{
    if s.len() > 0 {
        let p = s.drop_last();
        lemma_compact_idempotent(p);
        let (m, o) = compact_run(p);
        let b = s.last();
        if !(!m.in_str && is_ws(b)) {
            assert(o.push(b).drop_last() =~= o);
        }
    }
}

pub proof fn lemma_compact_len(st: Scan, s: Seq<u8>)
    ensures
        compact_from(st, s).1.len() <= s.len(),
    decreases s.len(),
{
    if s.len() > 0 {
        lemma_compact_len(st, s.drop_last());
    }
}

/// In compact text every white-space byte stands inside a string.
pub proof fn lemma_compact_prefix(s: Seq<u8>)
    requires
        compact_run(s).1 == s,
        s.len() > 0,
    ensures
        compact_run(s.drop_last()).1 == s.drop_last(),
        compact_run(s.drop_last()).0.in_str || !is_ws(s.last()),
{
    let p = s.drop_last();
    lemma_compact_len(scan_start(), p);
    let (m, o) = compact_run(p);
    if !m.in_str && is_ws(s.last()) {
        assert(o.len() < s.len());
    } else {
        assert(s == o.push(s.last()));
        assert(o =~= s.drop_last());
    }
}

pub proof fn lemma_indent_ws(d: u64)
    ensures
        all_ws(indent(d)),
{
}

/// One byte of the layout writer, compacted, is that byte compacted.
pub proof fn lemma_layout_byte(st: Layout, b: u8)
    requires
        scan_ok(st.scan),
        st.pending ==> !st.scan.in_str,
    ensures
        compact_from(st.scan, layout_step(st, b).1) == compact_from(st.scan, seq![b]),
        scan_ok(layout_step(st, b).0.scan),
        layout_step(st, b).0.pending ==> !layout_step(st, b).0.scan.in_str,
        layout_step(st, b).0.scan == scan_step(st.scan, b),
{
    let out = !st.scan.in_str;
    let closing = out && (b == CLOSE_BRACE || b == CLOSE_BRACKET);
    let depth = depth_step(st.depth, out, b);
    let e = layout_step(st, b).1;
    lemma_compact_one(st.scan, b);
    lemma_indent_ws(st.depth);
    lemma_indent_ws(depth);
    let lead = if st.pending && !closing {
        seq![NEWLINE] + indent(st.depth)
    } else {
        Seq::<u8>::empty()
    };
    let body = if closing && !st.pending {
        seq![NEWLINE] + indent(depth) + seq![b]
    } else if out && b == COMMA {
        seq![b, NEWLINE] + indent(st.depth)
    } else if out && b == COLON {
        seq![b, SPACE]
    } else {
        seq![b]
    };
    assert(e == lead + body);
    if st.pending && !closing {
        assert(st.scan == outside());
        assert(all_ws(lead));
        lemma_compact_ws(lead);
    } else {
        assert(lead =~= Seq::<u8>::empty());
        assert(compact_from(st.scan, lead) == (st.scan, Seq::<u8>::empty()));
    }
    lemma_compact_concat(st.scan, lead, body);
    let m = compact_from(st.scan, lead).0;
    assert(m == st.scan);
    if closing && !st.pending {
        assert(st.scan == outside());
        let w = seq![NEWLINE] + indent(depth);
        assert(all_ws(w));
        lemma_compact_ws(w);
        lemma_compact_concat(st.scan, w, seq![b]);
        assert(body == w + seq![b]);
    } else if out && b == COMMA {
        assert(st.scan == outside());
        let w = seq![NEWLINE] + indent(st.depth);
        assert(all_ws(w));
        lemma_compact_ws(w);
        lemma_compact_concat(st.scan, seq![b], w);
        assert(body =~= seq![b] + w);
    } else if out && b == COLON {
        assert(st.scan == outside());
        lemma_compact_one(outside(), SPACE);
        lemma_compact_concat(st.scan, seq![b], seq![SPACE]);
        assert(body =~= seq![b] + seq![SPACE]);
    }
    assert(Seq::<u8>::empty() + compact_from(st.scan, body).1 =~= compact_from(st.scan, body).1);
}

/// Laying out adds only white space outside strings: compacted, the layout
/// of `s` is `s` compacted.
pub proof fn lemma_layout_compacts_back(s: Seq<u8>)
    ensures
        compact_run(layout_run(s).1) == compact_run(s),
        layout_run(s).0.scan == compact_run(s).0,
        scan_ok(layout_run(s).0.scan),
        layout_run(s).0.pending ==> !layout_run(s).0.scan.in_str,
    decreases s.len(),
{
    if s.len() > 0 {
        let p = s.drop_last();
        let b = s.last();
        lemma_layout_compacts_back(p);
        let (ls, lo) = layout_run(p);
        lemma_layout_byte(ls, b);
        lemma_compact_concat(scan_start(), lo, layout_step(ls, b).1);
        lemma_compact_concat(scan_start(), p, seq![b]);
        assert(p + seq![b] =~= s);
    }
}

/// The rewriter's state just after the new value of a `version` member.
pub open spec fn skip_state() -> Retag {
    Retag { scan: outside(), depth: 1, phase: Phase::Skip, seen: true }
}

/// What the rewriter's states always satisfy.
pub open spec fn retag_ok(st: Retag) -> bool {
    &&& scan_ok(st.scan)
    &&& (st.phase is InKey ==> st.depth == 1 && st.scan.in_str)
    &&& (st.phase is AfterKey ==> st.depth == 1 && !st.scan.in_str)
    &&& (st.phase == Phase::KeyStart ==> st.depth == 1 && !st.scan.in_str)
    &&& (st.phase == Phase::Skip ==> st.seen)
}

/// How the rewriter, run over its own output, keeps pace with the run that
/// produced it: in step, except while the first run drops an old value.
pub open spec fn tracks(cs: Retag, rs: Retag) -> bool {
    if cs.phase == Phase::Skip {
        rs == skip_state()
    } else {
        rs == cs
    }
}

pub proof fn lemma_retag_ok(st: Retag, q: Seq<u8>, b: u8)
    requires
        retag_ok(st),
    ensures
        retag_ok(retag_step(st, q, b).0),
{
}

/// Plain bytes inside a string pass the compactor unchanged.
pub proof fn lemma_compact_plain(t: Seq<u8>)
    requires
        plain_text(t),
    ensures
        compact_from(Scan { in_str: true, esc: false }, t) == (Scan { in_str: true, esc: false }, t),
    decreases t.len(),
{
    if t.len() > 0 {
        lemma_compact_plain(t.drop_last());
        assert(t[t.len() - 1] != QUOTE);
        assert(t.drop_last().push(t.last()) =~= t);
    }
}

/// A string of plain bytes passes the compactor unchanged.
pub proof fn lemma_compact_quoted(t: Seq<u8>)
    requires
        plain_text(t),
    ensures
        compact_from(outside(), quoted(t)) == (outside(), quoted(t)),
{
    let ins = Scan { in_str: true, esc: false };
    lemma_compact_one(outside(), QUOTE);
    lemma_compact_plain(t);
    lemma_compact_concat(outside(), seq![QUOTE], t);
    lemma_compact_one(ins, QUOTE);
    lemma_compact_concat(outside(), seq![QUOTE] + t, seq![QUOTE]);
}

pub proof fn lemma_skip_plain(t: Seq<u8>, q: Seq<u8>)
    requires
        plain_text(t),
    ensures
        retag_from(Retag { scan: Scan { in_str: true, esc: false }, ..skip_state() }, t, q) == (
            Retag { scan: Scan { in_str: true, esc: false }, ..skip_state() },
            Seq::<u8>::empty(),
        ),
    decreases t.len(),
{
    if t.len() > 0 {
        lemma_skip_plain(t.drop_last(), q);
        assert(t[t.len() - 1] != QUOTE);
        assert(Seq::<u8>::empty() + Seq::<u8>::empty() =~= Seq::<u8>::empty());
    }
}

/// Dropping an old value that is a string of plain bytes writes nothing.
pub proof fn lemma_skip_quoted(t: Seq<u8>, q: Seq<u8>)
    requires
        plain_text(t),
    ensures
        retag_from(skip_state(), quoted(t), q) == (skip_state(), Seq::<u8>::empty()),
{
    let ins = Retag { scan: Scan { in_str: true, esc: false }, ..skip_state() };
    lemma_retag_one(skip_state(), QUOTE, q);
    lemma_skip_plain(t, q);
    lemma_retag_concat(skip_state(), seq![QUOTE], t, q);
    lemma_retag_one(ins, QUOTE, q);
    lemma_retag_concat(skip_state(), seq![QUOTE] + t, seq![QUOTE], q);
    assert(Seq::<u8>::empty() + Seq::<u8>::empty() =~= Seq::<u8>::empty());
}

pub open spec fn in_key(pos: u8, seen: bool) -> Retag {
    Retag {
        scan: Scan { in_str: true, esc: false },
        depth: 1,
        phase: Phase::InKey { pos, same: true },
        seen,
    }
}

pub proof fn lemma_key_bytes(k: int, seen: bool, q: Seq<u8>)
    requires
        0 <= k <= 7,
    ensures
        retag_from(in_key(0, seen), version_key().take(k), q) == (
            in_key(k as u8, seen),
            version_key().take(k),
        ),
    decreases k,
{
    if k > 0 {
        lemma_key_bytes(k - 1, seen, q);
        assert(version_key().take(k).drop_last() =~= version_key().take(k - 1));
        assert(version_key().take(k - 1).push(version_key()[k - 1]) =~= version_key().take(k));
    } else {
        assert(version_key().take(0) =~= Seq::<u8>::empty());
    }
}

/// The member name `"version"` read where a top-level name starts.
pub proof fn lemma_version_key(seen: bool, q: Seq<u8>)
    ensures
        retag_from(
            Retag { scan: outside(), depth: 1, phase: Phase::KeyStart, seen },
            quoted(version_key()),
            q,
        ) == (
            Retag { scan: outside(), depth: 1, phase: Phase::AfterKey { is_version: true }, seen },
            quoted(version_key()),
        ),
{
    let ks = Retag { scan: outside(), depth: 1, phase: Phase::KeyStart, seen };
    lemma_retag_one(ks, QUOTE, q);
    assert(retag_step(ks, q, QUOTE).0 == in_key(0, seen));
    lemma_key_bytes(7, seen, q);
    assert(version_key().take(7) =~= version_key());
    lemma_retag_concat(ks, seq![QUOTE], version_key(), q);
    lemma_retag_one(in_key(7, seen), QUOTE, q);
    lemma_retag_concat(ks, seq![QUOTE] + version_key(), seq![QUOTE], q);
}

pub proof fn lemma_version_key_plain()
    ensures
        plain_text(version_key()),
{
}

/// The member `"version":q` added before the closing `}` of an object whose
/// rewrite has not met one, as the second run reads it.
pub proof fn lemma_added_member(cs: Retag, t: Seq<u8>)
    requires
        retag_ok(cs),
        plain_text(t),
        cs.phase != Phase::Skip,
        !cs.scan.in_str,
        cs.depth == 1,
        !cs.seen,
    ensures
        ({
            let (cs2, e) = retag_step(cs, quoted(t), CLOSE_BRACE);
            &&& retag_from(cs, e, quoted(t)) == (cs2, e)
            &&& compact_from(cs.scan, e) == (cs2.scan, e)
        }),
{
    let q = quoted(t);
    let b = CLOSE_BRACE;
    let (cs2, e) = retag_step(cs, q, b);
    let qvk = quoted(version_key());
    lemma_version_key_plain();
    assert(cs.scan == outside());
    let ks = Retag { scan: outside(), depth: 1, phase: Phase::KeyStart, seen: false };
    let ak = Retag {
        scan: outside(),
        depth: 1,
        phase: Phase::AfterKey { is_version: true },
        seen: false,
    };
    let done = Retag { scan: outside(), depth: 0, phase: Phase::Other, seen: true };
    assert(cs2 == done);
    let lead = if cs.phase == Phase::KeyStart {
        Seq::<u8>::empty()
    } else {
        seq![COMMA]
    };
    assert(e == lead + qvk + seq![COLON] + q + seq![b]);
    // the comma, if any, leads to the start of a name
    if cs.phase == Phase::KeyStart {
        assert(cs == ks);
        assert(retag_from(cs, lead, q) == (ks, lead));
        assert(compact_from(outside(), lead) == (outside(), lead));
    } else {
        lemma_retag_one(cs, COMMA, q);
        lemma_compact_one(outside(), COMMA);
        assert(retag_from(cs, lead, q) == (ks, lead));
    }
    lemma_version_key(false, q);
    lemma_retag_concat(cs, lead, qvk, q);
    lemma_retag_one(ak, COLON, q);
    lemma_retag_concat(cs, lead + qvk, seq![COLON], q);
    assert(retag_step(ak, q, COLON) == (skip_state(), seq![COLON] + q));
    lemma_skip_quoted(t, q);
    lemma_retag_concat(cs, lead + qvk + seq![COLON], q, q);
    lemma_retag_one(skip_state(), b, q);
    lemma_retag_concat(cs, lead + qvk + seq![COLON] + q, seq![b], q);
    assert(lead + qvk + (seq![COLON] + q) + Seq::<u8>::empty() + seq![b] =~= e);
    // and the compactor keeps every byte of it
    lemma_compact_quoted(version_key());
    lemma_compact_concat(outside(), lead, qvk);
    lemma_compact_one(outside(), COLON);
    lemma_compact_concat(outside(), lead + qvk, seq![COLON]);
    lemma_compact_quoted(t);
    lemma_compact_concat(outside(), lead + qvk + seq![COLON], q);
    lemma_compact_one(outside(), b);
    lemma_compact_concat(outside(), lead + qvk + seq![COLON] + q, seq![b]);
}

/// One byte of compact text: the rewrite of its rewrite keeps pace.
pub proof fn lemma_track_step(cs: Retag, rs: Retag, t: Seq<u8>, b: u8)
    requires
        retag_ok(cs),
        tracks(cs, rs),
        plain_text(t),
        cs.scan.in_str || !is_ws(b),
    ensures
        ({
            let (cs2, e) = retag_step(cs, quoted(t), b);
            let (rs2, re) = retag_from(rs, e, quoted(t));
            &&& retag_ok(cs2)
            &&& tracks(cs2, rs2)
            &&& re == e
            &&& compact_from(rs.scan, e) == (rs2.scan, e)
        }),
{
    let q = quoted(t);
    let (cs2, e) = retag_step(cs, q, b);
    lemma_retag_ok(cs, q, b);
    let out = !cs.scan.in_str;
    let closes_top = out && b == CLOSE_BRACE && cs.depth == 1;
    if cs.phase == Phase::Skip {
        if (out && cs.depth == 1 && b == COMMA) || closes_top {
            assert(cs.scan == outside());
            lemma_retag_one(rs, b, q);
            lemma_compact_one(rs.scan, b);
        } else {
            assert(e =~= Seq::<u8>::empty());
        }
    } else if closes_top && !cs.seen {
        lemma_added_member(cs, t);
    } else if !closes_top && cs.phase == (Phase::AfterKey { is_version: true }) && b == COLON {
        assert(cs.scan == outside());
        lemma_retag_one(rs, COLON, q);
        lemma_skip_quoted(t, q);
        lemma_retag_concat(rs, seq![COLON], q, q);
        assert(seq![COLON] + q =~= e);
        assert(e + Seq::<u8>::empty() =~= e);
        lemma_compact_one(outside(), COLON);
        lemma_compact_quoted(t);
        lemma_compact_concat(outside(), seq![COLON], q);
    } else {
        assert(e == seq![b]);
        lemma_retag_one(rs, b, q);
        lemma_compact_one(rs.scan, b);
    }
}

/// Over compact text, the rewrite of the rewrite reproduces it, and the
/// rewrite is itself compact.
pub proof fn lemma_retag_tracks(s: Seq<u8>, t: Seq<u8>)
    requires
        compact_run(s).1 == s,
        plain_text(t),
    ensures
        ({
            let (cs, co) = retag_run(s, quoted(t));
            let (rs, ro) = retag_run(co, quoted(t));
            &&& retag_ok(cs)
            &&& cs.scan == compact_run(s).0
            &&& tracks(cs, rs)
            &&& ro == co
            &&& compact_run(co) == (rs.scan, co)
        }),
    decreases s.len(),
{
    let q = quoted(t);
    if s.len() == 0 {
        assert(compact_run(Seq::<u8>::empty()) == (scan_start(), Seq::<u8>::empty()));
    } else {
        let p = s.drop_last();
        let b = s.last();
        lemma_compact_prefix(s);
        lemma_retag_tracks(p, t);
        let (cs, co) = retag_run(p, q);
        let (rs, ro) = retag_run(co, q);
        lemma_track_step(cs, rs, t, b);
        let e = retag_step(cs, q, b).1;
        lemma_retag_concat(retag_start(), co, e, q);
        lemma_compact_concat(scan_start(), co, e);
    }
}

pub open spec fn string_mode(m: Mode) -> bool {
    m is Str || m is Escape || m is Hex
}

/// The checker is inside a string exactly where the string state says so.
pub proof fn lemma_check_scan(s: Seq<u8>)
    ensures
        check_run(s).0 != Mode::Fail ==> string_mode(check_run(s).0) == compact_run(s).0.in_str
            && (check_run(s).0 is Escape) == compact_run(s).0.esc,
    decreases s.len(),
{
    if s.len() > 0 {
        lemma_check_scan(s.drop_last());
    }
}

/// The dotted form of a version holds digits and dots only.
pub proof fn lemma_dotted_plain(v: Version)
    ensures
        plain_text(dotted(v)),
        string_text(dotted(v)),
{
    lemma_decimal(v.major as nat);
    lemma_decimal(v.minor as nat);
    lemma_decimal(v.patch as nat);
    let d = dotted(v);
    assert forall|i: int| 0 <= i < d.len() implies d[i] != QUOTE && d[i] != BACKSLASH && d[i]
        >= 32 by {
        let x = crate::version::decimal(v.major as nat);
        let y = crate::version::decimal(v.minor as nat);
        let z = crate::version::decimal(v.patch as nat);
        if i < x.len() {
            assert(is_digit(x[i]));
        } else if i == x.len() {
        } else if i < x.len() + 1 + y.len() {
            assert(is_digit(y[i - x.len() - 1]));
        } else if i == x.len() + 1 + y.len() {
        } else {
            assert(is_digit(z[i - x.len() - 2 - y.len()]));
        }
    }
}

/// Synchronizing a manifest to a version a second time gives back exactly
/// the bytes of the first time, whenever the first result is accepted as a
/// manifest.
pub proof fn lemma_synchronize_twice(doc: Seq<u8>, v: Version)
    requires
        is_manifest(synchronized(doc, v)),
    ensures
        synchronized(synchronized(doc, v), v) == synchronized(doc, v),
{
    let q = quoted(dotted(v));
    let c = compacted(doc);
    let r = retagged(c, q);
    let l = laid_out_json(r);
    let x = synchronized(doc, v);
    assert(x == l + seq![NEWLINE]);
    lemma_dotted_plain(v);
    lemma_compact_idempotent(doc);
    lemma_retag_tracks(c, dotted(v));
    lemma_layout_compacts_back(r);
    // the newline ends the document outside any string
    assert(x.drop_last() =~= l);
    lemma_check_scan(l);
    assert(!compact_run(l).0.in_str);
    lemma_compact_concat(scan_start(), l, seq![NEWLINE]);
    lemma_compact_one(compact_run(l).0, NEWLINE);
    assert(compact_run(l).1 + Seq::<u8>::empty() =~= compact_run(l).1);
    assert(compacted(x) == r);
}

/// A mode in which a value has been read completely, or may end here.
pub open spec fn value_done(m: Mode) -> bool {
    ||| m == Mode::AfterValue
    ||| (m matches Mode::Num { state } && num_complete(state))
    ||| (m matches Mode::Word { which, pos } && pos >= word(which).len())
}

/// Two checker states that agree up to white space: equal, or the first has
/// seen white space end a value that the second is still reading.
pub open spec fn agrees(a: (Mode, Seq<u8>), b: (Mode, Seq<u8>)) -> bool {
    a.1 == b.1 && (a.0 == b.0 || (a.0 == Mode::AfterValue && value_done(b.0)))
}

/// The checker reads a byte the same way from agreeing states.
pub proof fn lemma_agrees_step(a: (Mode, Seq<u8>), b: (Mode, Seq<u8>), x: u8)
    requires
        agrees(a, b),
        check_step(a.0, a.1, x).0 != Mode::Fail,
    ensures
        agrees(check_step(a.0, a.1, x), check_step(b.0, b.1, x)),
{
}

/// White space outside strings ends a number or a word, and is otherwise
/// passed over.
pub proof fn lemma_ws_step(a: (Mode, Seq<u8>), x: u8)
    requires
        !string_mode(a.0),
        is_ws(x),
        check_step(a.0, a.1, x).0 != Mode::Fail,
    ensures
        agrees(check_step(a.0, a.1, x), a),
{
}

/// Dropping white space between tokens keeps a document acceptable.
pub proof fn lemma_compact_check(s: Seq<u8>)
    ensures
        check_run(s).0 != Mode::Fail ==> agrees(check_run(s), check_run(compacted(s))),
    decreases s.len(),
{
    if s.len() > 0 {
        let p = s.drop_last();
        let x = s.last();
        lemma_compact_check(p);
        lemma_check_scan(p);
        let a = check_run(p);
        let (m, o) = compact_run(p);
        if a.0 != Mode::Fail && check_run(s).0 != Mode::Fail {
            if !m.in_str && is_ws(x) {
                lemma_ws_step(a, x);
            } else {
                assert(o.push(x).drop_last() =~= o);
                lemma_agrees_step(a, check_run(o), x);
            }
        }
    }
}

pub proof fn lemma_check_concat(m: Mode, k: Seq<u8>, a: Seq<u8>, b: Seq<u8>)
    ensures
        check_from(m, k, a + b) == check_from(
            check_from(m, k, a).0,
            check_from(m, k, a).1,
            b,
        ),
    decreases b.len(),
{
    if b.len() == 0 {
        assert(a + b =~= a);
    } else {
        lemma_check_concat(m, k, a, b.drop_last());
        assert((a + b).drop_last() =~= a + b.drop_last());
        assert((a + b).last() == b.last());
    }
}

pub proof fn lemma_check_one(m: Mode, k: Seq<u8>, x: u8)
    ensures
        check_from(m, k, seq![x]) == check_step(m, k, x),
{
    assert(seq![x].drop_last() =~= Seq::<u8>::empty());
    assert(check_from(m, k, Seq::<u8>::empty()) == (m, k));
}

/// The modes that white space leaves as they are.
pub open spec fn keeps_ws(m: Mode) -> bool {
    m == Mode::Start || m == Mode::Key || m == Mode::KeyOrClose || m == Mode::Colon || m
        == Mode::Value || m == Mode::ValueOrClose || m == Mode::AfterValue || m == Mode::Done
}

pub proof fn lemma_ws_keep(m: Mode, k: Seq<u8>, w: Seq<u8>)
    requires
        keeps_ws(m),
        all_ws(w),
    ensures
        check_from(m, k, w) == (m, k),
    decreases w.len(),
{
    if w.len() > 0 {
        lemma_ws_keep(m, k, w.drop_last());
        assert(is_ws(w[w.len() - 1]));
    }
}

/// White space before a closing bracket outside strings changes nothing.
pub proof fn lemma_ws_before_close(m: Mode, k: Seq<u8>, w: Seq<u8>, x: u8)
    requires
        !string_mode(m),
        all_ws(w),
        w.len() > 0,
        x == CLOSE_BRACE || x == CLOSE_BRACKET,
        check_step(m, k, x).0 != Mode::Fail,
    ensures
        check_from(m, k, w + seq![x]) == check_step(m, k, x),
{
    let w0 = w[0];
    assert(is_ws(w0));
    let rest = w.subrange(1, w.len() as int);
    assert(w =~= seq![w0] + rest);
    lemma_check_one(m, k, w0);
    let (m1, k1) = check_step(m, k, w0);
    assert(keeps_ws(m1) && k1 == k && check_step(m1, k1, x) == check_step(m, k, x));
    lemma_ws_keep(m1, k1, rest);
    lemma_check_concat(m, k, seq![w0], rest);
    lemma_check_concat(m, k, w, seq![x]);
    lemma_check_one(m1, k1, x);
}

/// One byte of the layout writer reads to the checker as that byte does.
pub proof fn lemma_layout_check_step(m: Mode, k: Seq<u8>, ls: Layout, x: u8)
    requires
        m != Mode::Fail,
        check_step(m, k, x).0 != Mode::Fail,
        string_mode(m) == ls.scan.in_str,
        ls.pending ==> (m == Mode::KeyOrClose || m == Mode::ValueOrClose),
    ensures
        check_from(m, k, layout_step(ls, x).1) == check_step(m, k, x),
        layout_step(ls, x).0.pending ==> (check_step(m, k, x).0 == Mode::KeyOrClose
            || check_step(m, k, x).0 == Mode::ValueOrClose),
{
    let out = !ls.scan.in_str;
    let closing = out && (x == CLOSE_BRACE || x == CLOSE_BRACKET);
    let depth = depth_step(ls.depth, out, x);
    let e = layout_step(ls, x).1;
    lemma_indent_ws(ls.depth);
    lemma_indent_ws(depth);
    let lead = if ls.pending && !closing {
        seq![NEWLINE] + indent(ls.depth)
    } else {
        Seq::<u8>::empty()
    };
    let body = if closing && !ls.pending {
        seq![NEWLINE] + indent(depth) + seq![x]
    } else if out && x == COMMA {
        seq![x, NEWLINE] + indent(ls.depth)
    } else if out && x == COLON {
        seq![x, SPACE]
    } else {
        seq![x]
    };
    assert(e == lead + body);
    lemma_check_concat(m, k, lead, body);
    if ls.pending && !closing {
        assert(all_ws(lead));
        lemma_ws_keep(m, k, lead);
    } else {
        assert(lead =~= Seq::<u8>::empty());
    }
    let (m2, k2) = check_step(m, k, x);
    if closing && !ls.pending {
        let w = seq![NEWLINE] + indent(depth);
        assert(all_ws(w));
        assert(body == w + seq![x]);
        lemma_ws_before_close(m, k, w, x);
    } else if out && (x == COMMA || x == COLON) {
        let w = if x == COMMA {
            seq![NEWLINE] + indent(ls.depth)
        } else {
            seq![SPACE]
        };
        assert(all_ws(w));
        assert(body =~= seq![x] + w);
        lemma_check_one(m, k, x);
        lemma_check_concat(m, k, seq![x], w);
        assert(keeps_ws(m2));
        lemma_ws_keep(m2, k2, w);
    } else {
        lemma_check_one(m, k, x);
    }
}

/// Laying out a document reads to the checker exactly as the document does.
pub proof fn lemma_layout_check(s: Seq<u8>)
    ensures
        check_run(s).0 != Mode::Fail ==> check_run(layout_run(s).1) == check_run(s),
        check_run(s).0 != Mode::Fail && layout_run(s).0.pending ==> (check_run(s).0
            == Mode::KeyOrClose || check_run(s).0 == Mode::ValueOrClose),
    decreases s.len(),
{
    if s.len() > 0 {
        let p = s.drop_last();
        let x = s.last();
        lemma_layout_check(p);
        lemma_layout_compacts_back(p);
        lemma_check_scan(p);
        let (ls, lo) = layout_run(p);
        let (m, k) = check_run(p);
        if m != Mode::Fail && check_run(s).0 != Mode::Fail {
            lemma_layout_check_step(m, k, ls, x);
            lemma_check_concat(Mode::Start, Seq::<u8>::empty(), lo, layout_step(ls, x).1);
        }
    }
}

/// Bytes that may stand in a string as they are.
pub open spec fn string_text(t: Seq<u8>) -> bool {
    plain_text(t) && forall|i: int| 0 <= i < t.len() ==> t[i] >= 32
}

pub proof fn lemma_check_string(key: bool, k: Seq<u8>, t: Seq<u8>)
    requires
        string_text(t),
    ensures
        check_from(Mode::Str { key }, k, t) == (Mode::Str { key }, k),
    decreases t.len(),
{
    if t.len() > 0 {
        lemma_check_string(key, k, t.drop_last());
        assert(t[t.len() - 1] >= 32 && t[t.len() - 1] != QUOTE && t[t.len() - 1] != BACKSLASH);
    }
}

/// A string read where a value or a name may start.
pub proof fn lemma_check_quoted(m: Mode, k: Seq<u8>, t: Seq<u8>)
    requires
        string_text(t),
        m == Mode::Value || m == Mode::Key || m == Mode::KeyOrClose,
    ensures
        check_from(m, k, quoted(t)) == (if m == Mode::Value {
            (Mode::AfterValue, k)
        } else {
            (Mode::Colon, k)
        }),
{
    let key = m != Mode::Value;
    lemma_check_one(m, k, QUOTE);
    lemma_check_string(key, k, t);
    lemma_check_concat(m, k, seq![QUOTE], t);
    lemma_check_one(Mode::Str { key }, k, QUOTE);
    lemma_check_concat(m, k, seq![QUOTE] + t, seq![QUOTE]);
}

/// The checker's stack grows with an opening bracket outside strings,
/// shrinks with a closing one, and stays otherwise.
pub proof fn lemma_check_stack(m: Mode, k: Seq<u8>, x: u8)
    requires
        m != Mode::Fail,
        check_step(m, k, x).0 != Mode::Fail,
    ensures
        ({
            let k2 = check_step(m, k, x).1;
            if !string_mode(m) && (x == OPEN_BRACE || x == OPEN_BRACKET) {
                k2 == k.push(x)
            } else if !string_mode(m) && (x == CLOSE_BRACE || x == CLOSE_BRACKET) {
                k.len() > 0 && k2 == k.drop_last() && (k2.len() == 0 <==> check_step(m, k, x).0
                    == Mode::Done) && (k2.len() > 0 ==> check_step(m, k, x).0 == Mode::AfterValue)
            } else {
                k2 == k
            }
        }),
{
}

pub open spec fn skip_mode(m: Mode) -> bool {
    ||| m == Mode::Value
    ||| m == Mode::AfterValue
    ||| m is Num
    ||| m is Word
    ||| m == (Mode::Str { key: false })
    ||| m == (Mode::Escape { key: false })
    ||| (m matches Mode::Hex { key, .. } && !key)
}

pub open spec fn key_mode(m: Mode) -> bool {
    ||| m == (Mode::Str { key: true })
    ||| m == (Mode::Escape { key: true })
    ||| (m matches Mode::Hex { key, .. } && key)
}

/// How the checker on compact text `c` and on its rewrite `r` keep pace with
/// the rewriter's state `cs`.
pub open spec fn paces(cs: Retag, c: (Mode, Seq<u8>), r: (Mode, Seq<u8>)) -> bool {
    &&& cs.depth == c.1.len()
    &&& (c.1.len() > 0 ==> c.1[0] == OPEN_BRACE)
    &&& (c.1.len() == 0 ==> c.0 == Mode::Start || c.0 == Mode::Done)
    &&& (c.0 == Mode::Done ==> c.1.len() == 0)
    &&& string_mode(c.0) == cs.scan.in_str
    &&& (c.0 is Escape) == cs.scan.esc
    &&& (cs.phase == Phase::KeyStart ==> c.0 == Mode::KeyOrClose || c.0 == Mode::Key)
    &&& ((c.0 == Mode::KeyOrClose || c.0 == Mode::Key) && c.1.len() == 1 ==> cs.phase
        == Phase::KeyStart)
    &&& (cs.phase is InKey ==> key_mode(c.0))
    &&& (cs.phase is AfterKey ==> c.0 == Mode::Colon)
    &&& (cs.phase == Phase::Skip ==> c.1.len() >= 1 && r == (Mode::AfterValue, seq![OPEN_BRACE])
        && (c.1.len() == 1 ==> skip_mode(c.0)))
    &&& (cs.phase != Phase::Skip ==> r == c)
}

/// The added member `"version":q` reads to the checker as the closing `}`
/// of the top-level object.
pub proof fn lemma_paces_added(cs: Retag, c: (Mode, Seq<u8>), t: Seq<u8>)
    requires
        retag_ok(cs),
        paces(cs, c, c),
        string_text(t),
        c.0 != Mode::Fail,
        check_step(c.0, c.1, CLOSE_BRACE).0 != Mode::Fail,
        cs.phase != Phase::Skip,
        !cs.scan.in_str,
        cs.depth == 1,
        !cs.seen,
    ensures
        check_from(c.0, c.1, retag_step(cs, quoted(t), CLOSE_BRACE).1) == check_step(
            c.0,
            c.1,
            CLOSE_BRACE,
        ),
{
    let q = quoted(t);
    let x = CLOSE_BRACE;
    let e = retag_step(cs, q, x).1;
    let qvk = quoted(version_key());
    let top = seq![OPEN_BRACE];
    assert(c.1 =~= top);
    let (m, k) = c;
    let lead = if cs.phase == Phase::KeyStart {
        Seq::<u8>::empty()
    } else {
        seq![COMMA]
    };
    assert(e == lead + qvk + seq![COLON] + q + seq![x]);
    assert(check_step(m, k, x) == (Mode::Done, Seq::<u8>::empty()));
    let km = if cs.phase == Phase::KeyStart {
        m
    } else {
        Mode::Key
    };
    if cs.phase == Phase::KeyStart {
        assert(m == Mode::KeyOrClose);
        assert(check_from(m, k, lead) == (m, k));
    } else {
        lemma_check_one(m, k, COMMA);
        assert(check_from(m, k, lead) == (Mode::Key, k));
    }
    assert(string_text(version_key()));
    lemma_check_quoted(km, k, version_key());
    lemma_check_concat(m, k, lead, qvk);
    lemma_check_one(Mode::Colon, k, COLON);
    lemma_check_concat(m, k, lead + qvk, seq![COLON]);
    lemma_check_quoted(Mode::Value, k, t);
    lemma_check_concat(m, k, lead + qvk + seq![COLON], q);
    lemma_check_one(Mode::AfterValue, k, x);
    lemma_check_concat(m, k, lead + qvk + seq![COLON] + q, seq![x]);
}

/// One byte of compact text keeps the pace.
#[verifier::rlimit(50)]
pub proof fn lemma_paces_step(cs: Retag, c: (Mode, Seq<u8>), r: (Mode, Seq<u8>), t: Seq<u8>, x: u8)
    requires
        retag_ok(cs),
        paces(cs, c, r),
        string_text(t),
        c.0 != Mode::Fail,
        check_step(c.0, c.1, x).0 != Mode::Fail,
        cs.scan.in_str || !is_ws(x),
        c.1.len() < u64::MAX,
    ensures
        ({
            let (cs2, e) = retag_step(cs, quoted(t), x);
            paces(cs2, check_step(c.0, c.1, x), check_from(r.0, r.1, e))
        }),
{
    let q = quoted(t);
    let (cs2, e) = retag_step(cs, q, x);
    let (m, k) = c;
    let c2 = check_step(m, k, x);
    lemma_check_stack(m, k, x);
    lemma_retag_ok(cs, q, x);
    let out = !cs.scan.in_str;
    let closes_top = out && x == CLOSE_BRACE && cs.depth == 1;
    if k.len() == 1 {
        assert(k =~= seq![OPEN_BRACE]);
    }
    if c2.1.len() > 0 {
        if k.len() > 0 {
            assert(c2.1[0] == k[0]);
        }
        assert(c2.1[0] == OPEN_BRACE);
    }
    if cs.phase == Phase::Skip {
        if (out && cs.depth == 1 && x == COMMA) || closes_top {
            lemma_check_one(r.0, r.1, x);
        } else {
            assert(e =~= Seq::<u8>::empty());
            assert(check_from(r.0, r.1, e) == r);
        }
    } else if closes_top && !cs.seen {
        lemma_paces_added(cs, c, t);
    } else if !closes_top && cs.phase == (Phase::AfterKey { is_version: true }) && x == COLON {
        assert(k =~= seq![OPEN_BRACE]);
        lemma_check_one(m, k, COLON);
        lemma_check_quoted(Mode::Value, k, t);
        lemma_check_concat(m, k, seq![COLON], q);
        assert(seq![COLON] + q == e);
    } else {
        assert(e == seq![x]);
        lemma_check_one(m, k, x);
    }
}

/// Over compact text, the checker on the text and on its rewrite keep pace.
pub proof fn lemma_retag_check(s: Seq<u8>, t: Seq<u8>)
    requires
        compact_run(s).1 == s,
        string_text(t),
        s.len() < u64::MAX,
    ensures
        check_run(s).0 != Mode::Fail ==> check_run(s).1.len() <= s.len(),
        check_run(s).0 != Mode::Fail ==> paces(
            retag_run(s, quoted(t)).0,
            check_run(s),
            check_run(retag_run(s, quoted(t)).1),
        ),
    decreases s.len(),
{
    let q = quoted(t);
    if s.len() == 0 {
        assert(check_run(s) == (Mode::Start, Seq::<u8>::empty()));
        assert(retag_run(s, q) == (retag_start(), Seq::<u8>::empty()));
    } else {
        let p = s.drop_last();
        let x = s.last();
        lemma_compact_prefix(s);
        lemma_retag_check(p, t);
        lemma_retag_tracks(p, t);
        let (cs, co) = retag_run(p, q);
        let c = check_run(p);
        let r = check_run(co);
        if c.0 != Mode::Fail {
            if check_step(c.0, c.1, x).0 != Mode::Fail {
                lemma_check_stack(c.0, c.1, x);
                lemma_paces_step(cs, c, r, t, x);
                let e = retag_step(cs, q, x).1;
                lemma_check_concat(Mode::Start, Seq::<u8>::empty(), co, e);
            }
        }
    }
}

/// The rewrite of a manifest is a manifest again.
pub proof fn lemma_synchronized_is_manifest(doc: Seq<u8>, v: Version)
    requires
        is_manifest(doc),
        doc.len() < u64::MAX,
    ensures
        is_manifest(synchronized(doc, v)),
{
    let q = quoted(dotted(v));
    let c = compacted(doc);
    lemma_dotted_plain(v);
    lemma_compact_check(doc);
    lemma_compact_idempotent(doc);
    lemma_compact_len(scan_start(), doc);
    assert(check_run(c).0 == Mode::Done);
    lemma_retag_check(c, dotted(v));
    let r = retagged(c, q);
    assert(check_run(r).0 == Mode::Done);
    lemma_layout_check(r);
    let l = laid_out_json(r);
    let x = synchronized(doc, v);
    assert(x.drop_last() =~= l);
}

/// Synchronizing a manifest to a version twice gives byte-identical results:
/// the first result is itself a manifest, and rewriting it again gives back
/// exactly its bytes.
pub proof fn lemma_synchronize_idempotent(doc: Seq<u8>, v: Version)
    requires
        is_manifest(doc),
        doc.len() < u64::MAX,
    ensures
        is_manifest(synchronized(doc, v)),
        synchronized(synchronized(doc, v), v) == synchronized(doc, v),
{
    lemma_synchronized_is_manifest(doc, v);
    lemma_synchronize_twice(doc, v);
}

} // verus!
