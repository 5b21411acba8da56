//! Font-family fallbacks written into rendered SVG before PDF conversion, and the small
//! readers of `<text>` attributes that the glyph-overlap correction uses.
use vstd::prelude::*;
use crate::text::{chars_of, find, find_in, lemma_find_from_bounds, push_chars, replace_all, replace_chars};

verus! {

/// `s` with `from` replaced by `to` everywhere (left to right, non-overlapping).
fn replace_lit(s: &Vec<char>, from: &str, to: &str) -> (r: Vec<char>)
    requires
        from@.len() > 0,
    ensures
        r@ == replace_all(s@, from@, to@),
{
    let f = chars_of(from);
    let t = chars_of(to);
    replace_chars(s, &f, &t)
}

/// The SVG with the family names that the PDF fonts lack replaced by families that carry
/// Hangul: Human Myeongjo falls back to Batang and serif, HCI Poppy to Malgun Gothic and
/// sans-serif, and the Yun Gothic 130/140 header fonts become Noto Sans CJK KR.
pub open spec fn with_fallbacks(svg: Seq<char>) -> Seq<char> {
    let s1 = replace_all(svg, "font-family=\"휴먼명조\""@, "font-family=\"휴먼명조, 바탕, serif\""@);
    let s2 = replace_all(
        s1,
        "font-family=\"HCI Poppy\""@,
        "font-family=\"HCI Poppy, 맑은 고딕, sans-serif\""@,
    );
    let s3 = replace_all(s2, "font-family=\"-윤고딕140,"@, "font-family=\"Noto Sans CJK KR,"@);
    let s4 = replace_all(
        s3,
        "font-family=\"-윤고딕140\""@,
        "font-family=\"Noto Sans CJK KR,sans-serif\""@,
    );
    let s5 = replace_all(s4, "font-family=\"-윤고딕130,"@, "font-family=\"Noto Sans CJK KR,"@);
    replace_all(s5, "font-family=\"-윤고딕130\""@, "font-family=\"Noto Sans CJK KR,sans-serif\""@)
}

/// Applies the font-family fallbacks of `with_fallbacks`.
pub fn apply_font_fallbacks(svg: &str) -> (r: Vec<char>)
    ensures
        r@ == with_fallbacks(svg@),
{
    let s0 = chars_of(svg);
    proof {
        reveal_strlit("font-family=\"휴먼명조\"");
        reveal_strlit("font-family=\"HCI Poppy\"");
        reveal_strlit("font-family=\"-윤고딕140,");
        reveal_strlit("font-family=\"-윤고딕140\"");
        reveal_strlit("font-family=\"-윤고딕130,");
        reveal_strlit("font-family=\"-윤고딕130\"");
    }
    let s1 = replace_lit(&s0, "font-family=\"휴먼명조\"", "font-family=\"휴먼명조, 바탕, serif\"");
    let s2 = replace_lit(
        &s1,
        "font-family=\"HCI Poppy\"",
        "font-family=\"HCI Poppy, 맑은 고딕, sans-serif\"",
    );
    let s3 = replace_lit(&s2, "font-family=\"-윤고딕140,", "font-family=\"Noto Sans CJK KR,");
    let s4 = replace_lit(
        &s3,
        "font-family=\"-윤고딕140\"",
        "font-family=\"Noto Sans CJK KR,sans-serif\"",
    );
    let s5 = replace_lit(&s4, "font-family=\"-윤고딕130,", "font-family=\"Noto Sans CJK KR,");
    replace_lit(&s5, "font-family=\"-윤고딕130\"", "font-family=\"Noto Sans CJK KR,sans-serif\"")
}

// ---------------------------------------------------------------------------------------
// What the fallbacks do to each family attribute.

/// `from` stands at index `i` of `s`, as `replace_all` tests it.
pub open spec fn occurs_at(s: Seq<char>, from: Seq<char>, i: int) -> bool {
    from.len() <= s.len() - i && s.skip(i).take(from.len() as int) == from
}

/// From index `lo` on, every `f` of `s` is followed by a character other than `o`: no
/// `font-family` attribute can start there.
pub open spec fn no_fo_from(s: Seq<char>, lo: int) -> bool {
    forall|j: int| lo <= j < s.len() && #[trigger] s[j] == 'f' ==> j + 1 < s.len() && s[j + 1] != 'o'
}

proof fn lemma_replace_keeps_prefix(s: Seq<char>, from: Seq<char>, to: Seq<char>, n: int)
    requires
        from.len() > 0,
        0 <= n <= s.len(),
        forall|i: int| 0 <= i < n ==> !#[trigger] occurs_at(s, from, i),
    ensures
        replace_all(s, from, to) == s.take(n) + replace_all(s.skip(n), from, to),
    decreases n,
{
    if n > 0 {
        assert(s.skip(0) =~= s);
        assert(!occurs_at(s, from, 0));
        assert forall|i: int| 0 <= i < n - 1 implies !#[trigger] occurs_at(s.skip(1), from, i) by {
            assert(s.skip(1).skip(i) =~= s.skip(i + 1));
            assert(!occurs_at(s, from, i + 1));
        }
        lemma_replace_keeps_prefix(s.skip(1), from, to, n - 1);
        assert(s.skip(1).skip(n - 1) =~= s.skip(n));
        assert(s.take(n) =~= seq![s[0]] + s.skip(1).take(n - 1));
    } else {
        assert(s.take(0) =~= Seq::<char>::empty());
        assert(s.skip(0) =~= s);
    }
}

/// No `from` starting with `fo` stands anywhere in `s` from `lo` to `hi` when every `f` there
/// is followed by something other than `o`.
proof fn lemma_no_occurrence_in(s: Seq<char>, from: Seq<char>, lo: int, hi: int, i: int)
    requires
        from.len() >= 2,
        from[0] == 'f',
        from[1] == 'o',
        0 <= lo <= i < hi <= s.len(),
        forall|j: int| lo <= j < hi && #[trigger] s[j] == 'f' ==> j + 1 < hi && s[j + 1] != 'o',
    ensures
        !occurs_at(s, from, i),
{
    if occurs_at(s, from, i) {
        assert(s.skip(i).take(from.len() as int)[0] == s[i]);
        assert(s.skip(i).take(from.len() as int)[1] == s[i + 1]);
    }
}

/// One replacement pass over `a + x + b`, where nothing in `a` or after the first character
/// of `x` can start `from`: the region `x` is replaced when it is `from` and kept otherwise,
/// `a` is kept, and `b` is replaced on its own.
proof fn lemma_pass(a: Seq<char>, x: Seq<char>, b: Seq<char>, from: Seq<char>, to: Seq<char>, k: int)
    requires
        no_fo_from(a, 0),
        no_fo_from(x, 1),
        from.len() >= 2,
        from[0] == 'f',
        from[1] == 'o',
        x == from || (0 <= k < x.len() && k < from.len() && x[k] != from[k]),
    ensures
        replace_all(a + x + b, from, to) == a + (if x == from {
            to
        } else {
            x
        }) + replace_all(b, from, to),
{
    let s = a + x + b;
    let la = a.len() as int;
    assert forall|i: int| 0 <= i < la implies !#[trigger] occurs_at(s, from, i) by {
        assert forall|j: int| 0 <= j < la && #[trigger] s[j] == 'f' implies j + 1 < la && s[j + 1]
            != 'o' by {
            assert(s[j] == a[j]);
            assert(a[j] == 'f');
            assert(s[j + 1] == a[j + 1]);
        }
        lemma_no_occurrence_in(s, from, 0, la, i);
    }
    if x == from {
        lemma_replace_keeps_prefix(s, from, to, la);
        assert(s.take(la) =~= a);
        let r = s.skip(la);
        assert(r =~= from + b);
        assert(r.take(from.len() as int) =~= from);
        assert(r.skip(from.len() as int) =~= b);
    } else {
        let n = la + x.len();
        assert forall|i: int| 0 <= i < n implies !#[trigger] occurs_at(s, from, i) by {
            if i == la {
                if occurs_at(s, from, i) {
                    assert(s.skip(i).take(from.len() as int)[k] == x[k]);
                }
            } else if i > la {
                if occurs_at(s, from, i) {
                    assert(s[i] == x[i - la]);
                    assert(s.skip(i).take(from.len() as int)[0] == s[i]);
                    assert(x[i - la] == 'f');
                    assert(s[i + 1] == x[i - la + 1]);
                    assert(s.skip(i).take(from.len() as int)[1] == s[i + 1]);
                }
            }
        }
        lemma_replace_keeps_prefix(s, from, to, n);
        assert(s.take(n) =~= a + x);
        assert(s.skip(n) =~= b);
    }
}

proof fn lemma_fallback_literals()
    ensures
        no_fo_from("font-family=\"휴먼명조\""@, 1),
        "font-family=\"휴먼명조\""@.len() == 18,
        no_fo_from("font-family=\"HCI Poppy\""@, 1),
        "font-family=\"HCI Poppy\""@.len() == 23,
        no_fo_from("font-family=\"-윤고딕140,"@, 1),
        "font-family=\"-윤고딕140,"@.len() == 21,
        no_fo_from("font-family=\"-윤고딕140\""@, 1),
        "font-family=\"-윤고딕140\""@.len() == 21,
        no_fo_from("font-family=\"-윤고딕130,"@, 1),
        "font-family=\"-윤고딕130,"@.len() == 21,
        no_fo_from("font-family=\"-윤고딕130\""@, 1),
        "font-family=\"-윤고딕130\""@.len() == 21,
        no_fo_from("font-family=\"휴먼명조, 바탕, serif\""@, 1),
        "font-family=\"휴먼명조, 바탕, serif\""@.len() == 29,
        no_fo_from("font-family=\"HCI Poppy, 맑은 고딕, sans-serif\""@, 1),
        "font-family=\"HCI Poppy, 맑은 고딕, sans-serif\""@.len() == 42,
        no_fo_from("font-family=\"Noto Sans CJK KR,"@, 1),
        "font-family=\"Noto Sans CJK KR,"@.len() == 30,
        no_fo_from("font-family=\"Noto Sans CJK KR,sans-serif\""@, 1),
        "font-family=\"Noto Sans CJK KR,sans-serif\""@.len() == 41,
        "font-family=\"휴먼명조\""@[0] == 'f' && "font-family=\"휴먼명조\""@[1] == 'o',
        "font-family=\"HCI Poppy\""@[0] == 'f' && "font-family=\"HCI Poppy\""@[1] == 'o',
        "font-family=\"-윤고딕140,"@[0] == 'f' && "font-family=\"-윤고딕140,"@[1] == 'o',
        "font-family=\"-윤고딕140\""@[0] == 'f' && "font-family=\"-윤고딕140\""@[1] == 'o',
        "font-family=\"-윤고딕130,"@[0] == 'f' && "font-family=\"-윤고딕130,"@[1] == 'o',
        "font-family=\"-윤고딕130\""@[0] == 'f' && "font-family=\"-윤고딕130\""@[1] == 'o',
{
    reveal_strlit("font-family=\"휴먼명조\"");
    reveal_strlit("font-family=\"HCI Poppy\"");
    reveal_strlit("font-family=\"-윤고딕140,");
    reveal_strlit("font-family=\"-윤고딕140\"");
    reveal_strlit("font-family=\"-윤고딕130,");
    reveal_strlit("font-family=\"-윤고딕130\"");
    reveal_strlit("font-family=\"휴먼명조, 바탕, serif\"");
    reveal_strlit("font-family=\"HCI Poppy, 맑은 고딕, sans-serif\"");
    reveal_strlit("font-family=\"Noto Sans CJK KR,");
    reveal_strlit("font-family=\"Noto Sans CJK KR,sans-serif\"");
}

/// The family attribute that rule `r` of the fallbacks replaces, and what replaces it.
pub open spec fn fallback_rule(r: int) -> (Seq<char>, Seq<char>) {
    if r == 0 {
        ("font-family=\"휴먼명조\""@, "font-family=\"휴먼명조, 바탕, serif\""@)
    } else if r == 1 {
        ("font-family=\"HCI Poppy\""@, "font-family=\"HCI Poppy, 맑은 고딕, sans-serif\""@)
    } else if r == 2 {
        ("font-family=\"-윤고딕140,"@, "font-family=\"Noto Sans CJK KR,"@)
    } else if r == 3 {
        ("font-family=\"-윤고딕140\""@, "font-family=\"Noto Sans CJK KR,sans-serif\""@)
    } else if r == 4 {
        ("font-family=\"-윤고딕130,"@, "font-family=\"Noto Sans CJK KR,"@)
    } else {
        ("font-family=\"-윤고딕130\""@, "font-family=\"Noto Sans CJK KR,sans-serif\""@)
    }
}

// One lemma per rule: the attribute of rule `r`, after text where no attribute can start,
// goes through the six passes of `with_fallbacks`.

proof fn lemma_rule_0(a: Seq<char>, b: Seq<char>)
    requires
        no_fo_from(a, 0),
    ensures
        with_fallbacks(a + "font-family=\"휴먼명조\""@ + b) == a + "font-family=\"휴먼명조, 바탕, serif\""@ + with_fallbacks(b),
{
    lemma_fallback_literals();
    lemma_pass(a, "font-family=\"휴먼명조\""@, b, "font-family=\"휴먼명조\""@, "font-family=\"휴먼명조, 바탕, serif\""@, 0);
    let b1 = replace_all(b, "font-family=\"휴먼명조\""@, "font-family=\"휴먼명조, 바탕, serif\""@);
    assert("font-family=\"휴먼명조, 바탕, serif\""@[13] != "font-family=\"HCI Poppy\""@[13]) by {
        reveal_strlit("font-family=\"휴먼명조, 바탕, serif\"");
        reveal_strlit("font-family=\"HCI Poppy\"");
    }
    lemma_pass(a, "font-family=\"휴먼명조, 바탕, serif\""@, b1, "font-family=\"HCI Poppy\""@, "font-family=\"HCI Poppy, 맑은 고딕, sans-serif\""@, 13);
    let b2 = replace_all(b1, "font-family=\"HCI Poppy\""@, "font-family=\"HCI Poppy, 맑은 고딕, sans-serif\""@);
    assert("font-family=\"휴먼명조, 바탕, serif\""@[13] != "font-family=\"-윤고딕140,"@[13]) by {
        reveal_strlit("font-family=\"휴먼명조, 바탕, serif\"");
        reveal_strlit("font-family=\"-윤고딕140,");
    }
    lemma_pass(a, "font-family=\"휴먼명조, 바탕, serif\""@, b2, "font-family=\"-윤고딕140,"@, "font-family=\"Noto Sans CJK KR,"@, 13);
    let b3 = replace_all(b2, "font-family=\"-윤고딕140,"@, "font-family=\"Noto Sans CJK KR,"@);
    assert("font-family=\"휴먼명조, 바탕, serif\""@[13] != "font-family=\"-윤고딕140\""@[13]) by {
        reveal_strlit("font-family=\"휴먼명조, 바탕, serif\"");
        reveal_strlit("font-family=\"-윤고딕140\"");
    }
    lemma_pass(a, "font-family=\"휴먼명조, 바탕, serif\""@, b3, "font-family=\"-윤고딕140\""@, "font-family=\"Noto Sans CJK KR,sans-serif\""@, 13);
    let b4 = replace_all(b3, "font-family=\"-윤고딕140\""@, "font-family=\"Noto Sans CJK KR,sans-serif\""@);
    assert("font-family=\"휴먼명조, 바탕, serif\""@[13] != "font-family=\"-윤고딕130,"@[13]) by {
        reveal_strlit("font-family=\"휴먼명조, 바탕, serif\"");
        reveal_strlit("font-family=\"-윤고딕130,");
    }
    lemma_pass(a, "font-family=\"휴먼명조, 바탕, serif\""@, b4, "font-family=\"-윤고딕130,"@, "font-family=\"Noto Sans CJK KR,"@, 13);
    let b5 = replace_all(b4, "font-family=\"-윤고딕130,"@, "font-family=\"Noto Sans CJK KR,"@);
    assert("font-family=\"휴먼명조, 바탕, serif\""@[13] != "font-family=\"-윤고딕130\""@[13]) by {
        reveal_strlit("font-family=\"휴먼명조, 바탕, serif\"");
        reveal_strlit("font-family=\"-윤고딕130\"");
    }
    lemma_pass(a, "font-family=\"휴먼명조, 바탕, serif\""@, b5, "font-family=\"-윤고딕130\""@, "font-family=\"Noto Sans CJK KR,sans-serif\""@, 13);
}

proof fn lemma_rule_1(a: Seq<char>, b: Seq<char>)
    requires
        no_fo_from(a, 0),
    ensures
        with_fallbacks(a + "font-family=\"HCI Poppy\""@ + b) == a + "font-family=\"HCI Poppy, 맑은 고딕, sans-serif\""@ + with_fallbacks(b),
{
    lemma_fallback_literals();
    assert("font-family=\"HCI Poppy\""@[13] != "font-family=\"휴먼명조\""@[13]) by {
        reveal_strlit("font-family=\"HCI Poppy\"");
        reveal_strlit("font-family=\"휴먼명조\"");
    }
    lemma_pass(a, "font-family=\"HCI Poppy\""@, b, "font-family=\"휴먼명조\""@, "font-family=\"휴먼명조, 바탕, serif\""@, 13);
    let b1 = replace_all(b, "font-family=\"휴먼명조\""@, "font-family=\"휴먼명조, 바탕, serif\""@);
    lemma_pass(a, "font-family=\"HCI Poppy\""@, b1, "font-family=\"HCI Poppy\""@, "font-family=\"HCI Poppy, 맑은 고딕, sans-serif\""@, 0);
    let b2 = replace_all(b1, "font-family=\"HCI Poppy\""@, "font-family=\"HCI Poppy, 맑은 고딕, sans-serif\""@);
    assert("font-family=\"HCI Poppy, 맑은 고딕, sans-serif\""@[13] != "font-family=\"-윤고딕140,"@[13]) by {
        reveal_strlit("font-family=\"HCI Poppy, 맑은 고딕, sans-serif\"");
        reveal_strlit("font-family=\"-윤고딕140,");
    }
    lemma_pass(a, "font-family=\"HCI Poppy, 맑은 고딕, sans-serif\""@, b2, "font-family=\"-윤고딕140,"@, "font-family=\"Noto Sans CJK KR,"@, 13);
    let b3 = replace_all(b2, "font-family=\"-윤고딕140,"@, "font-family=\"Noto Sans CJK KR,"@);
    assert("font-family=\"HCI Poppy, 맑은 고딕, sans-serif\""@[13] != "font-family=\"-윤고딕140\""@[13]) by {
        reveal_strlit("font-family=\"HCI Poppy, 맑은 고딕, sans-serif\"");
        reveal_strlit("font-family=\"-윤고딕140\"");
    }
    lemma_pass(a, "font-family=\"HCI Poppy, 맑은 고딕, sans-serif\""@, b3, "font-family=\"-윤고딕140\""@, "font-family=\"Noto Sans CJK KR,sans-serif\""@, 13);
    let b4 = replace_all(b3, "font-family=\"-윤고딕140\""@, "font-family=\"Noto Sans CJK KR,sans-serif\""@);
    assert("font-family=\"HCI Poppy, 맑은 고딕, sans-serif\""@[13] != "font-family=\"-윤고딕130,"@[13]) by {
        reveal_strlit("font-family=\"HCI Poppy, 맑은 고딕, sans-serif\"");
        reveal_strlit("font-family=\"-윤고딕130,");
    }
    lemma_pass(a, "font-family=\"HCI Poppy, 맑은 고딕, sans-serif\""@, b4, "font-family=\"-윤고딕130,"@, "font-family=\"Noto Sans CJK KR,"@, 13);
    let b5 = replace_all(b4, "font-family=\"-윤고딕130,"@, "font-family=\"Noto Sans CJK KR,"@);
    assert("font-family=\"HCI Poppy, 맑은 고딕, sans-serif\""@[13] != "font-family=\"-윤고딕130\""@[13]) by {
        reveal_strlit("font-family=\"HCI Poppy, 맑은 고딕, sans-serif\"");
        reveal_strlit("font-family=\"-윤고딕130\"");
    }
    lemma_pass(a, "font-family=\"HCI Poppy, 맑은 고딕, sans-serif\""@, b5, "font-family=\"-윤고딕130\""@, "font-family=\"Noto Sans CJK KR,sans-serif\""@, 13);
}

proof fn lemma_rule_2(a: Seq<char>, b: Seq<char>)
    requires
        no_fo_from(a, 0),
    ensures
        with_fallbacks(a + "font-family=\"-윤고딕140,"@ + b) == a + "font-family=\"Noto Sans CJK KR,"@ + with_fallbacks(b),
{
    lemma_fallback_literals();
    assert("font-family=\"-윤고딕140,"@[13] != "font-family=\"휴먼명조\""@[13]) by {
        reveal_strlit("font-family=\"-윤고딕140,");
        reveal_strlit("font-family=\"휴먼명조\"");
    }
    lemma_pass(a, "font-family=\"-윤고딕140,"@, b, "font-family=\"휴먼명조\""@, "font-family=\"휴먼명조, 바탕, serif\""@, 13);
    let b1 = replace_all(b, "font-family=\"휴먼명조\""@, "font-family=\"휴먼명조, 바탕, serif\""@);
    assert("font-family=\"-윤고딕140,"@[13] != "font-family=\"HCI Poppy\""@[13]) by {
        reveal_strlit("font-family=\"-윤고딕140,");
        reveal_strlit("font-family=\"HCI Poppy\"");
    }
    lemma_pass(a, "font-family=\"-윤고딕140,"@, b1, "font-family=\"HCI Poppy\""@, "font-family=\"HCI Poppy, 맑은 고딕, sans-serif\""@, 13);
    let b2 = replace_all(b1, "font-family=\"HCI Poppy\""@, "font-family=\"HCI Poppy, 맑은 고딕, sans-serif\""@);
    lemma_pass(a, "font-family=\"-윤고딕140,"@, b2, "font-family=\"-윤고딕140,"@, "font-family=\"Noto Sans CJK KR,"@, 0);
    let b3 = replace_all(b2, "font-family=\"-윤고딕140,"@, "font-family=\"Noto Sans CJK KR,"@);
    assert("font-family=\"Noto Sans CJK KR,"@[13] != "font-family=\"-윤고딕140\""@[13]) by {
        reveal_strlit("font-family=\"Noto Sans CJK KR,");
        reveal_strlit("font-family=\"-윤고딕140\"");
    }
    lemma_pass(a, "font-family=\"Noto Sans CJK KR,"@, b3, "font-family=\"-윤고딕140\""@, "font-family=\"Noto Sans CJK KR,sans-serif\""@, 13);
    let b4 = replace_all(b3, "font-family=\"-윤고딕140\""@, "font-family=\"Noto Sans CJK KR,sans-serif\""@);
    assert("font-family=\"Noto Sans CJK KR,"@[13] != "font-family=\"-윤고딕130,"@[13]) by {
        reveal_strlit("font-family=\"Noto Sans CJK KR,");
        reveal_strlit("font-family=\"-윤고딕130,");
    }
    lemma_pass(a, "font-family=\"Noto Sans CJK KR,"@, b4, "font-family=\"-윤고딕130,"@, "font-family=\"Noto Sans CJK KR,"@, 13);
    let b5 = replace_all(b4, "font-family=\"-윤고딕130,"@, "font-family=\"Noto Sans CJK KR,"@);
    assert("font-family=\"Noto Sans CJK KR,"@[13] != "font-family=\"-윤고딕130\""@[13]) by {
        reveal_strlit("font-family=\"Noto Sans CJK KR,");
        reveal_strlit("font-family=\"-윤고딕130\"");
    }
    lemma_pass(a, "font-family=\"Noto Sans CJK KR,"@, b5, "font-family=\"-윤고딕130\""@, "font-family=\"Noto Sans CJK KR,sans-serif\""@, 13);
}

proof fn lemma_rule_3(a: Seq<char>, b: Seq<char>)
    requires
        no_fo_from(a, 0),
    ensures
        with_fallbacks(a + "font-family=\"-윤고딕140\""@ + b) == a + "font-family=\"Noto Sans CJK KR,sans-serif\""@ + with_fallbacks(b),
{
    lemma_fallback_literals();
    assert("font-family=\"-윤고딕140\""@[13] != "font-family=\"휴먼명조\""@[13]) by {
        reveal_strlit("font-family=\"-윤고딕140\"");
        reveal_strlit("font-family=\"휴먼명조\"");
    }
    lemma_pass(a, "font-family=\"-윤고딕140\""@, b, "font-family=\"휴먼명조\""@, "font-family=\"휴먼명조, 바탕, serif\""@, 13);
    let b1 = replace_all(b, "font-family=\"휴먼명조\""@, "font-family=\"휴먼명조, 바탕, serif\""@);
    assert("font-family=\"-윤고딕140\""@[13] != "font-family=\"HCI Poppy\""@[13]) by {
        reveal_strlit("font-family=\"-윤고딕140\"");
        reveal_strlit("font-family=\"HCI Poppy\"");
    }
    lemma_pass(a, "font-family=\"-윤고딕140\""@, b1, "font-family=\"HCI Poppy\""@, "font-family=\"HCI Poppy, 맑은 고딕, sans-serif\""@, 13);
    let b2 = replace_all(b1, "font-family=\"HCI Poppy\""@, "font-family=\"HCI Poppy, 맑은 고딕, sans-serif\""@);
    assert("font-family=\"-윤고딕140\""@[20] != "font-family=\"-윤고딕140,"@[20]) by {
        reveal_strlit("font-family=\"-윤고딕140\"");
        reveal_strlit("font-family=\"-윤고딕140,");
    }
    lemma_pass(a, "font-family=\"-윤고딕140\""@, b2, "font-family=\"-윤고딕140,"@, "font-family=\"Noto Sans CJK KR,"@, 20);
    let b3 = replace_all(b2, "font-family=\"-윤고딕140,"@, "font-family=\"Noto Sans CJK KR,"@);
    lemma_pass(a, "font-family=\"-윤고딕140\""@, b3, "font-family=\"-윤고딕140\""@, "font-family=\"Noto Sans CJK KR,sans-serif\""@, 0);
    let b4 = replace_all(b3, "font-family=\"-윤고딕140\""@, "font-family=\"Noto Sans CJK KR,sans-serif\""@);
    assert("font-family=\"Noto Sans CJK KR,sans-serif\""@[13] != "font-family=\"-윤고딕130,"@[13]) by {
        reveal_strlit("font-family=\"Noto Sans CJK KR,sans-serif\"");
        reveal_strlit("font-family=\"-윤고딕130,");
    }
    lemma_pass(a, "font-family=\"Noto Sans CJK KR,sans-serif\""@, b4, "font-family=\"-윤고딕130,"@, "font-family=\"Noto Sans CJK KR,"@, 13);
    let b5 = replace_all(b4, "font-family=\"-윤고딕130,"@, "font-family=\"Noto Sans CJK KR,"@);
    assert("font-family=\"Noto Sans CJK KR,sans-serif\""@[13] != "font-family=\"-윤고딕130\""@[13]) by {
        reveal_strlit("font-family=\"Noto Sans CJK KR,sans-serif\"");
        reveal_strlit("font-family=\"-윤고딕130\"");
    }
    lemma_pass(a, "font-family=\"Noto Sans CJK KR,sans-serif\""@, b5, "font-family=\"-윤고딕130\""@, "font-family=\"Noto Sans CJK KR,sans-serif\""@, 13);
}

proof fn lemma_rule_4(a: Seq<char>, b: Seq<char>)
    requires
        no_fo_from(a, 0),
    ensures
        with_fallbacks(a + "font-family=\"-윤고딕130,"@ + b) == a + "font-family=\"Noto Sans CJK KR,"@ + with_fallbacks(b),
{
    lemma_fallback_literals();
    assert("font-family=\"-윤고딕130,"@[13] != "font-family=\"휴먼명조\""@[13]) by {
        reveal_strlit("font-family=\"-윤고딕130,");
        reveal_strlit("font-family=\"휴먼명조\"");
    }
    lemma_pass(a, "font-family=\"-윤고딕130,"@, b, "font-family=\"휴먼명조\""@, "font-family=\"휴먼명조, 바탕, serif\""@, 13);
    let b1 = replace_all(b, "font-family=\"휴먼명조\""@, "font-family=\"휴먼명조, 바탕, serif\""@);
    assert("font-family=\"-윤고딕130,"@[13] != "font-family=\"HCI Poppy\""@[13]) by {
        reveal_strlit("font-family=\"-윤고딕130,");
        reveal_strlit("font-family=\"HCI Poppy\"");
    }
    lemma_pass(a, "font-family=\"-윤고딕130,"@, b1, "font-family=\"HCI Poppy\""@, "font-family=\"HCI Poppy, 맑은 고딕, sans-serif\""@, 13);
    let b2 = replace_all(b1, "font-family=\"HCI Poppy\""@, "font-family=\"HCI Poppy, 맑은 고딕, sans-serif\""@);
    assert("font-family=\"-윤고딕130,"@[18] != "font-family=\"-윤고딕140,"@[18]) by {
        reveal_strlit("font-family=\"-윤고딕130,");
        reveal_strlit("font-family=\"-윤고딕140,");
    }
    lemma_pass(a, "font-family=\"-윤고딕130,"@, b2, "font-family=\"-윤고딕140,"@, "font-family=\"Noto Sans CJK KR,"@, 18);
    let b3 = replace_all(b2, "font-family=\"-윤고딕140,"@, "font-family=\"Noto Sans CJK KR,"@);
    assert("font-family=\"-윤고딕130,"@[18] != "font-family=\"-윤고딕140\""@[18]) by {
        reveal_strlit("font-family=\"-윤고딕130,");
        reveal_strlit("font-family=\"-윤고딕140\"");
    }
    lemma_pass(a, "font-family=\"-윤고딕130,"@, b3, "font-family=\"-윤고딕140\""@, "font-family=\"Noto Sans CJK KR,sans-serif\""@, 18);
    let b4 = replace_all(b3, "font-family=\"-윤고딕140\""@, "font-family=\"Noto Sans CJK KR,sans-serif\""@);
    lemma_pass(a, "font-family=\"-윤고딕130,"@, b4, "font-family=\"-윤고딕130,"@, "font-family=\"Noto Sans CJK KR,"@, 0);
    let b5 = replace_all(b4, "font-family=\"-윤고딕130,"@, "font-family=\"Noto Sans CJK KR,"@);
    assert("font-family=\"Noto Sans CJK KR,"@[13] != "font-family=\"-윤고딕130\""@[13]) by {
        reveal_strlit("font-family=\"Noto Sans CJK KR,");
        reveal_strlit("font-family=\"-윤고딕130\"");
    }
    lemma_pass(a, "font-family=\"Noto Sans CJK KR,"@, b5, "font-family=\"-윤고딕130\""@, "font-family=\"Noto Sans CJK KR,sans-serif\""@, 13);
}

proof fn lemma_rule_5(a: Seq<char>, b: Seq<char>)
    requires
        no_fo_from(a, 0),
    ensures
        with_fallbacks(a + "font-family=\"-윤고딕130\""@ + b) == a + "font-family=\"Noto Sans CJK KR,sans-serif\""@ + with_fallbacks(b),
{
    lemma_fallback_literals();
    assert("font-family=\"-윤고딕130\""@[13] != "font-family=\"휴먼명조\""@[13]) by {
        reveal_strlit("font-family=\"-윤고딕130\"");
        reveal_strlit("font-family=\"휴먼명조\"");
    }
    lemma_pass(a, "font-family=\"-윤고딕130\""@, b, "font-family=\"휴먼명조\""@, "font-family=\"휴먼명조, 바탕, serif\""@, 13);
    let b1 = replace_all(b, "font-family=\"휴먼명조\""@, "font-family=\"휴먼명조, 바탕, serif\""@);
    assert("font-family=\"-윤고딕130\""@[13] != "font-family=\"HCI Poppy\""@[13]) by {
        reveal_strlit("font-family=\"-윤고딕130\"");
        reveal_strlit("font-family=\"HCI Poppy\"");
    }
    lemma_pass(a, "font-family=\"-윤고딕130\""@, b1, "font-family=\"HCI Poppy\""@, "font-family=\"HCI Poppy, 맑은 고딕, sans-serif\""@, 13);
    let b2 = replace_all(b1, "font-family=\"HCI Poppy\""@, "font-family=\"HCI Poppy, 맑은 고딕, sans-serif\""@);
    assert("font-family=\"-윤고딕130\""@[18] != "font-family=\"-윤고딕140,"@[18]) by {
        reveal_strlit("font-family=\"-윤고딕130\"");
        reveal_strlit("font-family=\"-윤고딕140,");
    }
    lemma_pass(a, "font-family=\"-윤고딕130\""@, b2, "font-family=\"-윤고딕140,"@, "font-family=\"Noto Sans CJK KR,"@, 18);
    let b3 = replace_all(b2, "font-family=\"-윤고딕140,"@, "font-family=\"Noto Sans CJK KR,"@);
    assert("font-family=\"-윤고딕130\""@[18] != "font-family=\"-윤고딕140\""@[18]) by {
        reveal_strlit("font-family=\"-윤고딕130\"");
        reveal_strlit("font-family=\"-윤고딕140\"");
    }
    lemma_pass(a, "font-family=\"-윤고딕130\""@, b3, "font-family=\"-윤고딕140\""@, "font-family=\"Noto Sans CJK KR,sans-serif\""@, 18);
    let b4 = replace_all(b3, "font-family=\"-윤고딕140\""@, "font-family=\"Noto Sans CJK KR,sans-serif\""@);
    assert("font-family=\"-윤고딕130\""@[20] != "font-family=\"-윤고딕130,"@[20]) by {
        reveal_strlit("font-family=\"-윤고딕130\"");
        reveal_strlit("font-family=\"-윤고딕130,");
    }
    lemma_pass(a, "font-family=\"-윤고딕130\""@, b4, "font-family=\"-윤고딕130,"@, "font-family=\"Noto Sans CJK KR,"@, 20);
    let b5 = replace_all(b4, "font-family=\"-윤고딕130,"@, "font-family=\"Noto Sans CJK KR,"@);
    lemma_pass(a, "font-family=\"-윤고딕130\""@, b5, "font-family=\"-윤고딕130\""@, "font-family=\"Noto Sans CJK KR,sans-serif\""@, 0);
}

/// Text in which no `font-family` attribute can start (every `f` is followed by something
/// other than `o`) passes through the fallbacks unchanged.
pub proof fn law_fallbacks_keep_other_text(a: Seq<char>)
    requires
        no_fo_from(a, 0),
    ensures
        with_fallbacks(a) == a,
{
    lemma_fallback_literals();
    assert forall|i: int| 0 <= i < a.len() implies !#[trigger] occurs_at(a, "font-family=\"휴먼명조\""@, i) by {
        lemma_no_occurrence_in(a, "font-family=\"휴먼명조\""@, 0, a.len() as int, i);
    }
    lemma_replace_keeps_prefix(a, "font-family=\"휴먼명조\""@, "font-family=\"휴먼명조, 바탕, serif\""@, a.len() as int);
    assert(a.take(a.len() as int) =~= a);
    assert(a.skip(a.len() as int) =~= Seq::<char>::empty());
    assert forall|i: int| 0 <= i < a.len() implies !#[trigger] occurs_at(a, "font-family=\"HCI Poppy\""@, i) by {
        lemma_no_occurrence_in(a, "font-family=\"HCI Poppy\""@, 0, a.len() as int, i);
    }
    lemma_replace_keeps_prefix(a, "font-family=\"HCI Poppy\""@, "font-family=\"HCI Poppy, 맑은 고딕, sans-serif\""@, a.len() as int);
    assert(a.take(a.len() as int) =~= a);
    assert(a.skip(a.len() as int) =~= Seq::<char>::empty());
    assert forall|i: int| 0 <= i < a.len() implies !#[trigger] occurs_at(a, "font-family=\"-윤고딕140,"@, i) by {
        lemma_no_occurrence_in(a, "font-family=\"-윤고딕140,"@, 0, a.len() as int, i);
    }
    lemma_replace_keeps_prefix(a, "font-family=\"-윤고딕140,"@, "font-family=\"Noto Sans CJK KR,"@, a.len() as int);
    assert(a.take(a.len() as int) =~= a);
    assert(a.skip(a.len() as int) =~= Seq::<char>::empty());
    assert forall|i: int| 0 <= i < a.len() implies !#[trigger] occurs_at(a, "font-family=\"-윤고딕140\""@, i) by {
        lemma_no_occurrence_in(a, "font-family=\"-윤고딕140\""@, 0, a.len() as int, i);
    }
    lemma_replace_keeps_prefix(a, "font-family=\"-윤고딕140\""@, "font-family=\"Noto Sans CJK KR,sans-serif\""@, a.len() as int);
    assert(a.take(a.len() as int) =~= a);
    assert(a.skip(a.len() as int) =~= Seq::<char>::empty());
    assert forall|i: int| 0 <= i < a.len() implies !#[trigger] occurs_at(a, "font-family=\"-윤고딕130,"@, i) by {
        lemma_no_occurrence_in(a, "font-family=\"-윤고딕130,"@, 0, a.len() as int, i);
    }
    lemma_replace_keeps_prefix(a, "font-family=\"-윤고딕130,"@, "font-family=\"Noto Sans CJK KR,"@, a.len() as int);
    assert(a.take(a.len() as int) =~= a);
    assert(a.skip(a.len() as int) =~= Seq::<char>::empty());
    assert forall|i: int| 0 <= i < a.len() implies !#[trigger] occurs_at(a, "font-family=\"-윤고딕130\""@, i) by {
        lemma_no_occurrence_in(a, "font-family=\"-윤고딕130\""@, 0, a.len() as int, i);
    }
    lemma_replace_keeps_prefix(a, "font-family=\"-윤고딕130\""@, "font-family=\"Noto Sans CJK KR,sans-serif\""@, a.len() as int);
    assert(a.take(a.len() as int) =~= a);
    assert(a.skip(a.len() as int) =~= Seq::<char>::empty());
}

/// Each family attribute that the fallbacks know is rewritten where it stands, and the rest
/// of the SVG is treated on its own: for text `a` in which no attribute can start, the SVG
/// `a`, attribute `p` of rule `r`, rest `b` becomes `a`, the replacement `t`, then the
/// fallbacks of `b`. So no attribute of the six replaced forms is left, wherever it stands.
pub proof fn law_fallback_rewrites_family(a: Seq<char>, b: Seq<char>, r: int)
    requires
        0 <= r < 6,
        no_fo_from(a, 0),
    ensures
        with_fallbacks(a + fallback_rule(r).0 + b) == a + fallback_rule(r).1 + with_fallbacks(b),
        fallback_rule(r).1 != fallback_rule(r).0,
{
    lemma_fallback_literals();
    if r == 0 {
        lemma_rule_0(a, b);
        assert("font-family=\"휴먼명조\""@[17] != "font-family=\"휴먼명조, 바탕, serif\""@[17]) by {
            reveal_strlit("font-family=\"휴먼명조\"");
            reveal_strlit("font-family=\"휴먼명조, 바탕, serif\"");
        }
    }
    if r == 1 {
        lemma_rule_1(a, b);
        assert("font-family=\"HCI Poppy\""@[22] != "font-family=\"HCI Poppy, 맑은 고딕, sans-serif\""@[22]) by {
            reveal_strlit("font-family=\"HCI Poppy\"");
            reveal_strlit("font-family=\"HCI Poppy, 맑은 고딕, sans-serif\"");
        }
    }
    if r == 2 {
        lemma_rule_2(a, b);
        assert("font-family=\"-윤고딕140,"@[13] != "font-family=\"Noto Sans CJK KR,"@[13]) by {
            reveal_strlit("font-family=\"-윤고딕140,");
            reveal_strlit("font-family=\"Noto Sans CJK KR,");
        }
    }
    if r == 3 {
        lemma_rule_3(a, b);
        assert("font-family=\"-윤고딕140\""@[13] != "font-family=\"Noto Sans CJK KR,sans-serif\""@[13]) by {
            reveal_strlit("font-family=\"-윤고딕140\"");
            reveal_strlit("font-family=\"Noto Sans CJK KR,sans-serif\"");
        }
    }
    if r == 4 {
        lemma_rule_4(a, b);
        assert("font-family=\"-윤고딕130,"@[13] != "font-family=\"Noto Sans CJK KR,"@[13]) by {
            reveal_strlit("font-family=\"-윤고딕130,");
            reveal_strlit("font-family=\"Noto Sans CJK KR,");
        }
    }
    if r == 5 {
        lemma_rule_5(a, b);
        assert("font-family=\"-윤고딕130\""@[13] != "font-family=\"Noto Sans CJK KR,sans-serif\""@[13]) by {
            reveal_strlit("font-family=\"-윤고딕130\"");
            reveal_strlit("font-family=\"Noto Sans CJK KR,sans-serif\"");
        }
    }
}

// ---------------------------------------------------------------------------------------
// XML entities and attribute values.

/// The payload with the XML entities `&apos; &quot; &lt; &gt; &amp;` decoded, in that
/// order; a payload without `&` is returned as it is.
pub open spec fn decoded_entities(s: Seq<char>) -> Seq<char> {
    if find(s, seq!['&']) is None {
        s
    } else {
        let s1 = replace_all(s, "&apos;"@, "'"@);
        let s2 = replace_all(s1, "&quot;"@, "\""@);
        let s3 = replace_all(s2, "&lt;"@, "<"@);
        let s4 = replace_all(s3, "&gt;"@, ">"@);
        replace_all(s4, "&amp;"@, "&"@)
    }
}

pub fn decode_xml_entities_chars(s: &Vec<char>) -> (r: Vec<char>)
    ensures
        r@ == decoded_entities(s@),
{
    let amp = vec!['&'];
    assert(amp@ =~= seq!['&']);
    assert(s@.subrange(0, s@.len() as int) =~= s@);
    if find_in(s, &amp, 0, s.len()).is_none() {
        let mut r: Vec<char> = Vec::new();
        let mut i: usize = 0;
        while i < s.len()
            invariant
                i <= s.len(),
                r@ == s@.take(i as int),
            decreases s.len() - i,
        {
            r.push(s[i]);
            i = i + 1;
            assert(r@ =~= s@.take(i as int));
        }
        assert(s@.take(s@.len() as int) =~= s@);
        return r;
    }
    proof {
        reveal_strlit("&apos;");
        reveal_strlit("&quot;");
        reveal_strlit("&lt;");
        reveal_strlit("&gt;");
        reveal_strlit("&amp;");
    }
    let s1 = replace_lit(s, "&apos;", "'");
    let s2 = replace_lit(&s1, "&quot;", "\"");
    let s3 = replace_lit(&s2, "&lt;", "<");
    let s4 = replace_lit(&s3, "&gt;", ">");
    replace_lit(&s4, "&amp;", "&")
}

/// Decodes the XML entities of a `<text>` payload.
pub fn decode_xml_entities(s: &str) -> (r: String)
    ensures
        r@ == decoded_entities(s@),
{
    let cs = chars_of(s);
    let v = decode_xml_entities_chars(&cs);
    let mut r = String::new();
    push_chars(&mut r, &v, 0, v.len());
    assert(v@.subrange(0, v@.len() as int) =~= v@);
    r
}

/// The value of `font-family="..."`: everything between its quotes.
pub open spec fn font_family_of(s: Seq<char>) -> Option<Seq<char>> {
    let marker = "font-family=\""@;
    match find(s, marker) {
        None => None,
        Some(k) => {
            let start = k + marker.len();
            match find(s.skip(start), seq!['"']) {
                None => None,
                Some(e) => Some(s.subrange(start, start + e)),
            }
        },
    }
}

pub fn parse_font_family_win(s: &Vec<char>, lo: usize, hi: usize) -> (r: Option<Vec<char>>)
    requires
        lo <= hi <= s.len(),
    ensures
        match (r, font_family_of(s@.subrange(lo as int, hi as int))) {
            (Some(v), Some(w)) => v@ == w,
            (None, None) => true,
            _ => false,
        },
{
    let ghost w = s@.subrange(lo as int, hi as int);
    let marker = chars_of("font-family=\"");
    proof {
        reveal_strlit("font-family=\"");
    }
    let k = match find_in(s, &marker, lo, hi) {
        Some(k) => k,
        None => {
            return None;
        },
    };
    proof {
        lemma_find_from_bounds(s@.subrange(lo as int, hi as int), marker@, 0);
    }
    let start = k + marker.len();
    let ghost rs = (k - lo + marker@.len()) as int;
    assert(s@.subrange(start as int, hi as int) =~= w.skip(rs));
    let q = vec!['"'];
    assert(q@ =~= seq!['"']);
    let e = match find_in(s, &q, start, hi) {
        Some(e) => e,
        None => {
            return None;
        },
    };
    proof {
        lemma_find_from_bounds(s@.subrange(start as int, hi as int), q@, 0);
    }
    let mut v: Vec<char> = Vec::new();
    let mut i = start;
    while i < e
        invariant
            start <= i <= e <= hi <= s.len(),
            v@ == s@.subrange(start as int, i as int),
        decreases e - i,
    {
        v.push(s[i]);
        i = i + 1;
        assert(v@ =~= s@.subrange(start as int, i as int));
    }
    assert(s@.subrange(start as int, e as int) =~= w.subrange(rs, rs + (e - start)));
    Some(v)
}

/// The font family named in an open tag, if it names one.
pub fn parse_font_family(s: &str) -> (r: Option<String>)
    ensures
        match (r, font_family_of(s@)) {
            (Some(v), Some(w)) => v@ == w,
            (None, None) => true,
            _ => false,
        },
{
    let cs = chars_of(s);
    assert(cs@.subrange(0, cs@.len() as int) =~= cs@);
    match parse_font_family_win(&cs, 0, cs.len()) {
        Some(v) => {
            let mut r = String::new();
            push_chars(&mut r, &v, 0, v.len());
            assert(v@.subrange(0, v@.len() as int) =~= v@);
            Some(r)
        },
        None => None,
    }
}

/// The narrow punctuation after which a following glyph is checked for overlap with a small
/// absolute tolerance: ASCII punctuation `. , : ; ! ? ~ / - ( ) [ ] { } < > ' " `` ` ``, the
/// ellipsis, the em, en and horizontal-bar dashes and the middle dot.
pub open spec fn narrow_punct(c: char) -> bool {
    ||| c == '.' || c == ',' || c == ':' || c == ';' || c == '!' || c == '?' || c == '~'
    ||| c == '/' || c == '-' || c == '(' || c == ')' || c == '[' || c == ']' || c == '{'
    ||| c == '}' || c == '<' || c == '>' || c == '\'' || c == '"' || c == '`'
    ||| c == '\u{2026}' || c == '\u{2014}' || c == '\u{2013}' || c == '\u{2015}'
    ||| c == '\u{00B7}'
}

pub fn is_narrow_overlap_punct(c: char) -> (r: bool)
    ensures
        r == narrow_punct(c),
{
    c == '.' || c == ',' || c == ':' || c == ';' || c == '!' || c == '?' || c == '~' || c == '/'
        || c == '-' || c == '(' || c == ')' || c == '[' || c == ']' || c == '{' || c == '}'
        || c == '<' || c == '>' || c == '\'' || c == '"' || c == '`' || c == '\u{2026}'
        || c == '\u{2014}' || c == '\u{2013}' || c == '\u{2015}' || c == '\u{00B7}'
}

} // verus!
