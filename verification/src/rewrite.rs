//! The argument rewriter: maps each incoming argument token independently
//! to zero, one or two outgoing tokens.
//!
//! A token in a fixed ignore-set is dropped.  A token spelling a RISC-V
//! target triple with an instruction-set-extension suffix embedded in the
//! architecture field is split into a plain target triple and a separate
//! `-march` flag carrying the suffix.  Every other token passes through
//! unchanged, in order.

use vstd::prelude::*;

use crate::strings::str_eq;
use crate::strings::str_starts_with;

verus! {

/// A token the rewriter drops entirely.
pub open spec fn is_ignored(t: Seq<char>) -> bool {
    ||| t == "-nostartfiles"@
    ||| t == "-Wno-nonnull-compare"@
    ||| t == "-Wno-dangling-pointer"@
}

/// The literal prefix of a target-triple flag the rewriter recognizes.
pub open spec fn riscv_prefix() -> Seq<char> {
    "--target=riscv"@
}

/// The literal prefix of the architecture flag the rewriter emits.
pub open spec fn march_prefix() -> Seq<char> {
    "-march=rv"@
}

/// One reading of token `t` as a RISC-V target triple with an embedded
/// extension suffix: after the literal prefix come a word-width marker
/// (`64` or `32`), a non-empty hyphen-free extension suffix, and the rest
/// of the triple, which starts with a hyphen and is not just the hyphen.
pub open spec fn riscv_split(t: Seq<char>, width: Seq<char>, ext: Seq<char>, rem: Seq<char>) -> bool {
    &&& t == riscv_prefix() + width + ext + rem
    &&& (width == "64"@ || width == "32"@)
    &&& ext.len() >= 1
    &&& (forall|i: int| 0 <= i < ext.len() ==> ext[i] != '-')
    &&& rem.len() >= 2
    &&& rem[0] == '-'
}

/// Whether the rewriter recognizes `t` as a splittable target triple.
pub open spec fn matches_riscv_target(t: Seq<char>) -> bool {
    exists|width: Seq<char>, ext: Seq<char>, rem: Seq<char>| riscv_split(t, width, ext, rem)
}

/// The two tokens a recognized target triple turns into: the triple with
/// the suffix removed, then the architecture flag carrying the suffix.
pub open spec fn riscv_pair(t: Seq<char>) -> Seq<Seq<char>>
    recommends
        matches_riscv_target(t),
{
    let (width, ext, rem) = choose|width: Seq<char>, ext: Seq<char>, rem: Seq<char>|
        riscv_split(t, width, ext, rem);
    seq![riscv_prefix() + width + rem, march_prefix() + width + ext]
}

/// What one input token contributes to the output sequence.
pub open spec fn rewrite_token(t: Seq<char>) -> Seq<Seq<char>> {
    if is_ignored(t) {
        Seq::empty()
    } else if matches_riscv_target(t) {
        riscv_pair(t)
    } else {
        seq![t]
    }
}

/// The whole rewrite: tokens are processed independently and in order.
pub open spec fn rewrite_seq(args: Seq<Seq<char>>) -> Seq<Seq<char>>
    decreases args.len(),
{
    if args.len() == 0 {
        Seq::empty()
    } else {
        rewrite_seq(args.drop_last()) + rewrite_token(args.last())
    }
}

/// Structural consequences of one reading of `t` as a target triple,
/// phrased over positions in `t` itself.
proof fn lemma_split_facts(t: Seq<char>, width: Seq<char>, ext: Seq<char>, rem: Seq<char>)
    requires
        riscv_split(t, width, ext, rem),
    ensures
        width.len() == 2,
        t.len() == 16 + ext.len() + rem.len(),
        t.len() >= 19,
        riscv_prefix().is_prefix_of(t),
        t[14] == width[0] && t[15] == width[1],
        (t[14] == '6' && t[15] == '4') || (t[14] == '3' && t[15] == '2'),
        forall|i: int| 16 <= i < 16 + ext.len() ==> #[trigger] t[i] != '-',
        t[16 + ext.len() as int] == '-',
        16 + ext.len() + 2 <= t.len(),
        width =~= t.subrange(14, 16),
        ext =~= t.subrange(16, 16 + ext.len() as int),
        rem =~= t.subrange(16 + ext.len() as int, t.len() as int),
{
    reveal_strlit("--target=riscv");
    reveal_strlit("64");
    reveal_strlit("32");
    assert(riscv_prefix().len() == 14);
    assert(width.len() == 2);
    let pw = riscv_prefix() + width;
    let pwe = pw + ext;
    assert(t == pwe + rem);
    assert forall|i: int| 0 <= i < 14 implies #[trigger] t[i] == riscv_prefix()[i] by {
        assert(t[i] == pwe[i]);
        assert(pwe[i] == pw[i]);
    }
    assert(t[14] == width[0]) by {
        assert(t[14] == pwe[14]);
        assert(pwe[14] == pw[14]);
    }
    assert(t[15] == width[1]) by {
        assert(t[15] == pwe[15]);
        assert(pwe[15] == pw[15]);
    }
    assert forall|i: int| 16 <= i < 16 + ext.len() implies #[trigger] t[i] != '-' by {
        assert(t[i] == pwe[i]);
        assert(pwe[i] == ext[i - 16]);
    }
    assert forall|i: int| 16 + ext.len() <= i < t.len() implies #[trigger] t[i] == rem[i - 16
        - ext.len()] by {
        assert(t[i] == (pwe + rem)[i]);
    }
    assert(t[16 + ext.len() as int] == rem[0]);
    assert(riscv_prefix().is_prefix_of(t)) by {
        assert(riscv_prefix() =~= t.subrange(0, 14));
    }
    assert(width =~= t.subrange(14, 16));
    assert(ext =~= t.subrange(16, 16 + ext.len() as int));
    assert(rem =~= t.subrange(16 + ext.len() as int, t.len() as int));
}

/// A token has at most one reading as a splittable target triple: the
/// width is pinned by position, and the suffix ends at the first hyphen
/// after it.
pub proof fn lemma_riscv_split_unique(
    t: Seq<char>,
    w1: Seq<char>,
    e1: Seq<char>,
    r1: Seq<char>,
    w2: Seq<char>,
    e2: Seq<char>,
    r2: Seq<char>,
)
    requires
        riscv_split(t, w1, e1, r1),
        riscv_split(t, w2, e2, r2),
    ensures
        w1 == w2,
        e1 == e2,
        r1 == r2,
{
    lemma_split_facts(t, w1, e1, r1);
    lemma_split_facts(t, w2, e2, r2);
    if e1.len() < e2.len() {
        assert(t[16 + e1.len() as int] == '-');
        assert(t[16 + e1.len() as int] != '-');
    }
    if e2.len() < e1.len() {
        assert(t[16 + e2.len() as int] == '-');
        assert(t[16 + e2.len() as int] != '-');
    }
    assert(e1.len() == e2.len());
    assert(w1 =~= w2);
    assert(e1 =~= e2);
    assert(r1 =~= r2);
}

/// True exactly when `t` is in the ignore-set.
pub fn is_ignored_token(t: &str) -> (b: bool)
    ensures
        b == is_ignored(t@),
{
    str_eq(t, "-nostartfiles") || str_eq(t, "-Wno-nonnull-compare") || str_eq(
        t,
        "-Wno-dangling-pointer",
    )
}

/// Recognizes a RISC-V target triple carrying an extension suffix and
/// returns the pair of tokens it expands into; returns `None` exactly on
/// tokens the pattern does not match, which pass through unchanged.
pub fn split_riscv_target(t: &str) -> (r: Option<(String, String)>)
    ensures
        match r {
            Some(p) => matches_riscv_target(t@) && seq![p.0@, p.1@] == riscv_pair(t@),
            None => !matches_riscv_target(t@),
        },
{
    let tlen = t.unicode_len();
    if tlen < 19 {
        proof {
            if matches_riscv_target(t@) {
                let (w, e, rm) = choose|w: Seq<char>, e: Seq<char>, rm: Seq<char>|
                    riscv_split(t@, w, e, rm);
                lemma_split_facts(t@, w, e, rm);
            }
        }
        return None;
    }
    if !str_starts_with(t, "--target=riscv") {
        proof {
            if matches_riscv_target(t@) {
                let (w, e, rm) = choose|w: Seq<char>, e: Seq<char>, rm: Seq<char>|
                    riscv_split(t@, w, e, rm);
                lemma_split_facts(t@, w, e, rm);
            }
        }
        return None;
    }
    let c14 = t.get_char(14);
    let c15 = t.get_char(15);
    let is64 = c14 == '6' && c15 == '4';
    let is32 = c14 == '3' && c15 == '2';
    if !is64 && !is32 {
        proof {
            if matches_riscv_target(t@) {
                let (w, e, rm) = choose|w: Seq<char>, e: Seq<char>, rm: Seq<char>|
                    riscv_split(t@, w, e, rm);
                lemma_split_facts(t@, w, e, rm);
            }
        }
        return None;
    }
    let mut j: usize = 16;
    while j < tlen && t.get_char(j) != '-'
        invariant
            tlen == t@.len(),
            16 <= j <= tlen,
            forall|i: int| 16 <= i < j ==> #[trigger] t@[i] != '-',
        decreases tlen - j,
    {
        j = j + 1;
    }
    if j == tlen || j == 16 || j + 1 == tlen {
        proof {
            if matches_riscv_target(t@) {
                let (w, e, rm) = choose|w: Seq<char>, e: Seq<char>, rm: Seq<char>|
                    riscv_split(t@, w, e, rm);
                lemma_split_facts(t@, w, e, rm);
                if j == tlen {
                    assert(t@[16 + e.len() as int] == '-');
                } else if j == 16 {
                    assert(t@[16] != '-');
                } else {
                    if 16 + e.len() < j {
                        assert(t@[16 + e.len() as int] != '-');
                    }
                    if j < 16 + e.len() {
                        assert(t@[j as int] != '-');
                    }
                    assert(16 + e.len() == j);
                    assert(rm.len() == 1);
                }
            }
        }
        return None;
    }
    let width = t.substring_char(14, 16);
    let ext = t.substring_char(16, j);
    let rem = t.substring_char(j, tlen);
    let mut first = String::new();
    first.append("--target=riscv");
    first.append(width);
    first.append(rem);
    let mut second = String::new();
    second.append("-march=rv");
    second.append(width);
    second.append(ext);
    proof {
        reveal_strlit("--target=riscv");
        reveal_strlit("-march=rv");
        reveal_strlit("64");
        reveal_strlit("32");
        assert(width@ =~= t@.subrange(14, 16));
        if is64 {
            assert(width@ =~= "64"@);
        } else {
            assert(width@ =~= "32"@);
        }
        assert(t@ =~= riscv_prefix() + width@ + ext@ + rem@);
        assert(riscv_split(t@, width@, ext@, rem@));
        assert(matches_riscv_target(t@));
        let (w, e, rm) = choose|w: Seq<char>, e: Seq<char>, rm: Seq<char>|
            riscv_split(t@, w, e, rm);
        lemma_riscv_split_unique(t@, w, e, rm, width@, ext@, rem@);
        assert(first@ == riscv_prefix() + width@ + rem@);
        assert(second@ == march_prefix() + width@ + ext@);
        assert(seq![first@, second@] =~= riscv_pair(t@));
    }
    Some((first, second))
}

/// Rewrites a whole argument list: drops ignore-set tokens, splits
/// recognized RISC-V target triples into two flags, and passes every other
/// token through unchanged, preserving order.
pub fn rewrite(args: &Vec<String>) -> (out: Vec<String>)
    ensures
        out.deep_view() == rewrite_seq(args.deep_view()),
{
    let mut out: Vec<String> = Vec::new();
    let n = args.len();
    let mut i: usize = 0;
    while i < n
        invariant
            n == args@.len(),
            i <= n,
            out.deep_view() == rewrite_seq(args.deep_view().take(i as int)),
        decreases n - i,
    {
        let ghost prev = out.deep_view();
        let arg = &args[i];
        if is_ignored_token(arg.as_str()) {
            proof {
                assert(out.deep_view() =~= prev + rewrite_token(args.deep_view()[i as int]));
            }
        } else {
            match split_riscv_target(arg.as_str()) {
                Some(pair) => {
                    let (first, second) = pair;
                    let ghost gf = first@;
                    let ghost gs = second@;
                    out.push(first);
                    out.push(second);
                    proof {
                        assert(out.deep_view() =~= prev + seq![gf, gs]);
                        assert(seq![gf, gs] == rewrite_token(args.deep_view()[i as int]));
                    }
                },
                None => {
                    out.push(arg.clone());
                    proof {
                        assert(out.deep_view() =~= prev + seq![arg@]);
                        assert(seq![arg@] == rewrite_token(args.deep_view()[i as int]));
                    }
                },
            }
        }
        proof {
            let a = args.deep_view();
            assert(a.take(i + 1 as int).drop_last() =~= a.take(i as int));
            assert(a.take(i + 1 as int).last() == a[i as int]);
            assert(out.deep_view() == rewrite_seq(a.take(i + 1 as int)));
        }
        i = i + 1;
    }
    proof {
        assert(args.deep_view().take(n as int) =~= args.deep_view());
    }
    out
}

/// Law: a token in the ignore-set is dropped entirely.
pub proof fn lemma_rewrite_ignored(t: Seq<char>)
    requires
        is_ignored(t),
    ensures
        rewrite_seq(seq![t]) == Seq::<Seq<char>>::empty(),
{
    assert(seq![t].drop_last() =~= Seq::<Seq<char>>::empty());
    assert(rewrite_seq(Seq::<Seq<char>>::empty()) =~= Seq::<Seq<char>>::empty());
    assert(seq![t].last() == t);
    assert(rewrite_seq(seq![t]) =~= Seq::<Seq<char>>::empty());
}

/// Law: a token that is neither ignored nor a recognized target triple
/// passes through unchanged.
pub proof fn lemma_rewrite_passthrough(t: Seq<char>)
    requires
        !is_ignored(t),
        !matches_riscv_target(t),
    ensures
        rewrite_seq(seq![t]) == seq![t],
{
    assert(seq![t].drop_last() =~= Seq::<Seq<char>>::empty());
    assert(rewrite_seq(Seq::<Seq<char>>::empty()) =~= Seq::<Seq<char>>::empty());
    assert(seq![t].last() == t);
    assert(rewrite_seq(seq![t]) =~= seq![t]);
}

/// Law: a target triple made of any width marker, any non-empty
/// hyphen-free extension suffix and any remainder that starts with a
/// hyphen (and is not the hyphen alone) is rewritten into the triple
/// without the suffix followed by the march flag carrying it.
pub proof fn lemma_rewrite_riscv_target(width: Seq<char>, ext: Seq<char>, rem: Seq<char>)
    requires
        width == "64"@ || width == "32"@,
        ext.len() >= 1,
        forall|i: int| 0 <= i < ext.len() ==> ext[i] != '-',
        rem.len() >= 2,
        rem[0] == '-',
    ensures
        rewrite_seq(seq![riscv_prefix() + width + ext + rem]) == seq![
            riscv_prefix() + width + rem,
            march_prefix() + width + ext,
        ],
{
    let t = riscv_prefix() + width + ext + rem;
    assert(riscv_split(t, width, ext, rem));
    lemma_split_facts(t, width, ext, rem);
    assert(!is_ignored(t)) by {
        reveal_strlit("--target=riscv");
        reveal_strlit("-nostartfiles");
        reveal_strlit("-Wno-nonnull-compare");
        reveal_strlit("-Wno-dangling-pointer");
        assert(t[1] == '-');
    }
    let (w, e, rm) = choose|w: Seq<char>, e: Seq<char>, rm: Seq<char>| riscv_split(t, w, e, rm);
    lemma_riscv_split_unique(t, w, e, rm, width, ext, rem);
    assert(seq![t].drop_last() =~= Seq::<Seq<char>>::empty());
    assert(rewrite_seq(Seq::<Seq<char>>::empty()) =~= Seq::<Seq<char>>::empty());
    assert(seq![t].last() == t);
    assert(rewrite_seq(seq![t]) =~= seq![
        riscv_prefix() + width + rem,
        march_prefix() + width + ext,
    ]);
}

} // verus!
