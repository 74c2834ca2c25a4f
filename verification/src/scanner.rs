//! The order in which the MP3 files found under a folder are listed: by
//! their lower-case path, keeping the order of paths with the same key.
use vstd::prelude::*;

use crate::controller::{is_mp3_ext, is_mp3_extension};
use crate::model::{
    is_infix, opt_text, path_extension, plain_extension, plain_path, portable_extension,
    portable_extension_path, texts,
};

verus! {

/// The lower-case form of a text, by the Unicode rules of `str::to_lowercase`.
pub uninterp spec fn lowercase(s: Seq<char>) -> Seq<char>;

/// `str::to_lowercase`: the text in lower case. The result is named, not
/// stated: it follows the Unicode case tables of the standard library.
#[verifier::external_body]
pub(crate) fn lowercase_text(s: &str) -> (r: String)
    ensures
        r@ == lowercase(s@),
{
    s.to_lowercase()
}

/// Lists the MP3 files found under a folder.
pub struct Mp3FileScanner;

/// Whether `a` comes before or equals `b` in the order of their characters'
/// code points, which is the order of their UTF-8 bytes.
pub open spec fn text_le(a: Seq<char>, b: Seq<char>) -> bool
    decreases a.len(),
{
    if a.len() == 0 {
        true
    } else if b.len() == 0 {
        false
    } else if a[0] != b[0] {
        (a[0] as int) < (b[0] as int)
    } else {
        text_le(a.drop_first(), b.drop_first())
    }
}

/// Whether paths are listed in the order of their lower-case forms.
pub open spec fn sorted_by_key(s: Seq<Seq<char>>) -> bool {
    forall|i: int, j: int|
        0 <= i < j < s.len() ==> text_le(lowercase(#[trigger] s[i]), lowercase(#[trigger] s[j]))
}

/// The paths of `s` whose lower-case form is `k`, in order.
pub open spec fn with_key(s: Seq<Seq<char>>, k: Seq<char>) -> Seq<Seq<char>>
    decreases s.len(),
{
    if s.len() == 0 {
        s
    } else if lowercase(s.last()) == k {
        with_key(s.drop_last(), k).push(s.last())
    } else {
        with_key(s.drop_last(), k)
    }
}

proof fn lemma_le_reflexive(a: Seq<char>)
    ensures
        text_le(a, a),
    decreases a.len(),
{
    if a.len() > 0 {
        lemma_le_reflexive(a.drop_first());
    }
}

proof fn lemma_le_total(a: Seq<char>, b: Seq<char>)
    ensures
        text_le(a, b) || text_le(b, a),
    decreases a.len(),
{
    if a.len() > 0 && b.len() > 0 {
        if a[0] == b[0] {
            lemma_le_total(a.drop_first(), b.drop_first());
        } else {
            assert((a[0] as int) != (b[0] as int));
        }
    }
}

proof fn lemma_le_transitive(a: Seq<char>, b: Seq<char>, c: Seq<char>)
    requires
        text_le(a, b),
        text_le(b, c),
    ensures
        text_le(a, c),
    decreases a.len(),
{
    if a.len() > 0 && b.len() > 0 && c.len() > 0 && a[0] == b[0] && b[0] == c[0] {
        lemma_le_transitive(a.drop_first(), b.drop_first(), c.drop_first());
    }
}

proof fn lemma_with_key_add(a: Seq<Seq<char>>, b: Seq<Seq<char>>, k: Seq<char>)
    ensures
        with_key(a + b, k) == with_key(a, k) + with_key(b, k),
    decreases b.len(),
{
    if b.len() == 0 {
        assert(a + b =~= a);
        assert(with_key(a, k) + with_key(b, k) =~= with_key(a, k));
    } else {
        lemma_with_key_add(a, b.drop_last(), k);
        assert((a + b).drop_last() =~= a + b.drop_last());
        assert((a + b).last() == b.last());
        if lowercase(b.last()) == k {
            assert(with_key(a, k) + with_key(b.drop_last(), k).push(b.last()) =~= (with_key(a, k)
                + with_key(b.drop_last(), k)).push(b.last()));
        }
    }
}

proof fn lemma_with_key_none(s: Seq<Seq<char>>, k: Seq<char>)
    requires
        forall|j: int| 0 <= j < s.len() ==> lowercase(#[trigger] s[j]) != k,
    ensures
        with_key(s, k) == Seq::<Seq<char>>::empty(),
    decreases s.len(),
{
    if s.len() > 0 {
        assert forall|j: int| 0 <= j < s.drop_last().len() implies lowercase(
            #[trigger] s.drop_last()[j],
        ) != k by {
            assert(s.drop_last()[j] == s[j]);
        }
        lemma_with_key_none(s.drop_last(), k);
        assert(lowercase(s[s.len() - 1]) != k);
    }
}

proof fn lemma_with_key_single(p: Seq<char>, k: Seq<char>)
    ensures
        with_key(seq![p], k) == (if lowercase(p) == k {
            seq![p]
        } else {
            Seq::<Seq<char>>::empty()
        }),
{
    let e = Seq::<Seq<char>>::empty();
    assert(seq![p].drop_last() =~= e);
    assert(seq![p].last() == p);
    assert(with_key(e, k) == e);
    assert(e.push(p) =~= seq![p]);
}

/// Whether `a` comes before or equals `b` in code-point order.
fn text_le_exec(a: &str, b: &str) -> (r: bool)
    ensures
        r == text_le(a@, b@),
{
    let n = a.unicode_len();
    let m = b.unicode_len();
    let mut i: usize = 0;
    assert(a@.skip(0) =~= a@);
    assert(b@.skip(0) =~= b@);
    while i < n && i < m && a.get_char(i) == b.get_char(i)
        invariant
            n == a@.len(),
            m == b@.len(),
            i <= n,
            i <= m,
            text_le(a@, b@) == text_le(a@.skip(i as int), b@.skip(i as int)),
        decreases n - i,
    {
        assert(a@.skip(i as int).drop_first() =~= a@.skip(i + 1));
        assert(b@.skip(i as int).drop_first() =~= b@.skip(i + 1));
        i = i + 1;
    }
    if i == n {
        true
    } else if i == m {
        false
    } else {
        assert(a@.skip(i as int)[0] == a@[i as int]);
        assert(b@.skip(i as int)[0] == b@[i as int]);
        (a.get_char(i) as u32) < (b.get_char(i) as u32)
    }
}

/// The paths whose flag in `keep` is set, in order.
pub open spec fn kept(paths: Seq<Seq<char>>, keep: Seq<bool>) -> Seq<Seq<char>>
    decreases paths.len(),
{
    if paths.len() == 0 || keep.len() == 0 {
        Seq::empty()
    } else {
        let rest = kept(paths.drop_last(), keep.drop_last());
        if keep.last() {
            rest.push(paths.last())
        } else {
            rest
        }
    }
}

/// The extensions of a list of paths, taken by their views.
pub open spec fn ext_views(exts: Seq<Option<String>>) -> Seq<Option<Seq<char>>> {
    exts.map_values(|e: Option<String>| opt_text(e))
}

/// Which paths are MP3 files, given the extension read from each.
pub open spec fn mp3_flags(exts: Seq<Option<Seq<char>>>) -> Seq<bool> {
    exts.map_values(|e: Option<Seq<char>>| is_mp3_ext(e))
}

/// Whether `r` lists the paths whose extension is `mp3` without ASCII case,
/// given the extension read from each path: the kept paths, each
/// lower-case form's paths in their order.
pub open spec fn mp3_listing(
    paths: Seq<Seq<char>>,
    exts: Seq<Option<Seq<char>>>,
    r: Seq<Seq<char>>,
) -> bool {
    &&& exts.len() == paths.len()
    &&& forall|k: Seq<char>|
        #[trigger] with_key(r, k) == with_key(kept(paths, mp3_flags(exts)), k)
}

/// Whether `e` is an extension that the platform's path rules may read from
/// `p`: a piece of `p`, or none; for a plain path, or one whose last part
/// every platform reads alike, its extension.
pub open spec fn read_extension(p: Seq<char>, e: Option<Seq<char>>) -> bool {
    &&& (e matches Some(x) ==> is_infix(x, p))
    &&& (plain_path(p) ==> e == plain_extension(p))
    &&& (portable_extension_path(p) ==> e == Some(portable_extension(p)))
}

impl Mp3FileScanner {
    /// The paths whose extension (`exts`, read from each path) is `mp3`
    /// without ASCII case, listed in the order of their lower-case forms
    /// (paths with the same lower-case form keep their order).
    pub fn mp3_of_extensions(paths: Vec<String>, exts: Vec<Option<String>>) -> (r: Vec<String>)
        requires
            exts@.len() == paths@.len(),
        ensures
            mp3_listing(texts(paths@), ext_views(exts@), texts(r@)),
            sorted_by_key(texts(r@)),
    {
        let n = paths.len();
        let ghost flags = mp3_flags(ext_views(exts@));
        let mut found: Vec<String> = Vec::new();
        let mut i: usize = 0;
        assert(texts(found@) =~= Seq::<Seq<char>>::empty());
        assert(flags.take(0) =~= Seq::<bool>::empty());
        while i < n
            invariant
                n == paths@.len(),
                n == exts@.len(),
                i <= n,
                flags == mp3_flags(ext_views(exts@)),
                texts(found@) == kept(texts(paths@).take(i as int), flags.take(i as int)),
            decreases n - i,
        {
            let b = match &exts[i] {
                Some(e) => is_mp3_extension(Some(e.clone())),
                None => false,
            };
            assert(b == flags[i as int]);
            let ghost t = texts(paths@).take(i + 1);
            let ghost before = texts(found@);
            if b {
                found.push(paths[i].clone());
                assert(texts(found@) =~= before.push(paths@[i as int]@));
            }
            assert(t.drop_last() =~= texts(paths@).take(i as int));
            assert(flags.take(i + 1).drop_last() =~= flags.take(i as int));
            i = i + 1;
        }
        assert(texts(paths@).take(n as int) =~= texts(paths@));
        assert(flags.take(n as int) =~= flags);
        Self::sort_paths(found)
    }

    /// The MP3 files among the paths of the regular files found under a
    /// folder, listed in the order of their lower-case forms. Each path's
    /// extension is read by the platform's path rules.
    pub fn mp3_files(paths: Vec<String>) -> (r: Vec<String>)
        ensures
            exists|exts: Seq<Option<Seq<char>>>|
                #![trigger mp3_listing(texts(paths@), exts, texts(r@))]
                mp3_listing(texts(paths@), exts, texts(r@)) && forall|i: int|
                    0 <= i < exts.len() ==> read_extension(paths@[i]@, #[trigger] exts[i]),
            sorted_by_key(texts(r@)),
    {
        let n = paths.len();
        let mut exts: Vec<Option<String>> = Vec::new();
        let mut i: usize = 0;
        while i < n
            invariant
                n == paths@.len(),
                i <= n,
                exts@.len() == i,
                forall|j: int|
                    0 <= j < i ==> read_extension(paths@[j]@, #[trigger] ext_views(exts@)[j]),
            decreases n - i,
        {
            let e = path_extension(paths[i].as_str());
            let ghost before = ext_views(exts@);
            let ghost ev = opt_text(e);
            exts.push(e);
            assert(ext_views(exts@) =~= before.push(ev));
            i = i + 1;
        }
        let ghost ev = ext_views(exts@);
        let r = Self::mp3_of_extensions(paths, exts);
        assert forall|j: int| 0 <= j < ev.len() implies read_extension(paths@[j]@, #[trigger] ev[j]) by {}
        r
    }

    /// The paths listed in the order of their lower-case forms; paths with
    /// the same lower-case form keep their order.
    pub fn sort_paths(paths: Vec<String>) -> (r: Vec<String>)
        ensures
            sorted_by_key(texts(r@)),
            forall|k: Seq<char>| #[trigger] with_key(texts(r@), k) == with_key(texts(paths@), k),
    {
        let n = paths.len();
        let mut out: Vec<String> = Vec::new();
        let mut i: usize = 0;
        assert(texts(paths@).take(0) =~= Seq::<Seq<char>>::empty());
        assert(texts(out@) =~= Seq::<Seq<char>>::empty());
        while i < n
            invariant
                n == paths@.len(),
                i <= n,
                sorted_by_key(texts(out@)),
                forall|k: Seq<char>|
                    #[trigger] with_key(texts(out@), k) == with_key(texts(paths@).take(i as int), k),
            decreases n - i,
        {
            let p = paths[i].clone();
            let kp = lowercase_text(p.as_str());
            let mut q: usize = 0;
            while q < out.len() && text_le_exec(lowercase_text(out[q].as_str()).as_str(), kp.as_str())
                invariant
                    q <= out@.len(),
                    kp@ == lowercase(p@),
                    forall|m: int| 0 <= m < q ==> text_le(lowercase(#[trigger] out@[m]@), kp@),
                decreases out@.len() - q,
            {
                q = q + 1;
            }
            let ghost old_out = texts(out@);
            let ghost pv = p@;
            proof {
                assert forall|m: int| 0 <= m < q implies text_le(lowercase(#[trigger] old_out[m]), kp@) by {
                    assert(old_out[m] == out@[m]@);
                }
                if q < out@.len() {
                    assert(old_out[q as int] == out@[q as int]@);
                    lemma_le_total(lowercase(old_out[q as int]), kp@);
                }
            }
            out.insert(q, p);
            let ghost new_out = texts(out@);
            proof {
                assert(new_out =~= old_out.take(q as int) + seq![pv] + old_out.skip(q as int));
                // the paths after the insertion point all come after `p`
                assert forall|j: int| q <= j < old_out.len() implies text_le(
                    kp@,
                    lowercase(#[trigger] old_out[j]),
                ) && lowercase(old_out[j]) != kp@ by {
                    if j > q {
                        assert(text_le(lowercase(old_out[q as int]), lowercase(old_out[j])));
                    } else {
                        lemma_le_reflexive(lowercase(old_out[j]));
                    }
                    lemma_le_transitive(kp@, lowercase(old_out[q as int]), lowercase(old_out[j]));
                    if lowercase(old_out[j]) == kp@ {
                        if j > q {
                            assert(text_le(lowercase(old_out[q as int]), lowercase(old_out[j])));
                        }
                        lemma_le_reflexive(kp@);
                    }
                }
                assert forall|a: int, b: int| 0 <= a < b < new_out.len() implies text_le(
                    lowercase(#[trigger] new_out[a]),
                    lowercase(#[trigger] new_out[b]),
                ) by {
                    if b < q {
                        assert(new_out[a] == old_out[a] && new_out[b] == old_out[b]);
                    } else if b == q {
                        assert(new_out[a] == old_out[a]);
                    } else if a < q {
                        assert(new_out[a] == old_out[a] && new_out[b] == old_out[b - 1]);
                        lemma_le_transitive(lowercase(old_out[a]), kp@, lowercase(old_out[b - 1]));
                    } else if a == q {
                        assert(new_out[b] == old_out[b - 1]);
                    } else {
                        assert(new_out[a] == old_out[a - 1] && new_out[b] == old_out[b - 1]);
                    }
                }
                let taken = texts(paths@).take(i as int);
                assert(texts(paths@).take(i + 1) =~= taken.push(pv));
                assert(old_out =~= old_out.take(q as int) + old_out.skip(q as int));
                assert forall|k: Seq<char>| #[trigger] with_key(new_out, k) == with_key(
                    texts(paths@).take(i + 1),
                    k,
                ) by {
                    let front = old_out.take(q as int);
                    let back = old_out.skip(q as int);
                    lemma_with_key_add(front + seq![pv], back, k);
                    lemma_with_key_add(front, seq![pv], k);
                    lemma_with_key_add(front, back, k);
                    lemma_with_key_single(pv, k);
                    assert(taken.push(pv) =~= taken + seq![pv]);
                    lemma_with_key_add(taken, seq![pv], k);
                    if lowercase(pv) == k {
                        assert forall|j: int| 0 <= j < back.len() implies lowercase(
                            #[trigger] back[j],
                        ) != k by {
                            assert(back[j] == old_out[q + j]);
                        }
                        lemma_with_key_none(back, k);
                        assert(with_key(old_out, k) == with_key(front, k) + with_key(back, k));
                    }
                    assert(with_key(front, k) + with_key(seq![pv], k) + with_key(back, k) =~= with_key(
                        front,
                        k,
                    ) + with_key(back, k) + with_key(seq![pv], k)) by {
                        if lowercase(pv) != k {
                        }
                    }
                }
            }
            i = i + 1;
        }
        assert(texts(paths@).take(n as int) =~= texts(paths@));
        out
    }
}

} // verus!

verus! {

/// Paths are listed in the code-point order of their lower-case forms: of
/// two texts that agree up to position `k` and differ there, the first comes
/// first exactly when its character at `k` has the smaller code point; a
/// text comes before every text that it starts, and no longer text comes
/// before one that starts it.
pub proof fn lemma_text_order(a: Seq<char>, b: Seq<char>, k: int)
    ensures
        0 <= k < a.len() && k < b.len() && a.subrange(0, k) == b.subrange(0, k) && a[k] != b[k]
            ==> (text_le(a, b) <==> (a[k] as int) < (b[k] as int)),
        a.len() <= b.len() && b.subrange(0, a.len() as int) == a ==> text_le(a, b),
        a.len() < b.len() && b.subrange(0, a.len() as int) == a ==> !text_le(b, a),
    decreases a.len(),
{
    if a.len() > 0 && b.len() > 0 {
        lemma_text_order(a.drop_first(), b.drop_first(), k - 1);
        if 0 < k < a.len() && k < b.len() && a.subrange(0, k) == b.subrange(0, k) {
            assert(a[0] == a.subrange(0, k)[0]);
            assert(b[0] == b.subrange(0, k)[0]);
            assert(a.drop_first().subrange(0, k - 1) =~= a.subrange(0, k).drop_first());
            assert(b.drop_first().subrange(0, k - 1) =~= b.subrange(0, k).drop_first());
        }
        if a.len() <= b.len() && b.subrange(0, a.len() as int) == a {
            assert(b[0] == a[0]);
            assert(b.drop_first().subrange(0, a.len() - 1) =~= a.drop_first());
        }
    }
}

} // verus!
