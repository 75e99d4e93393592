//! Identifier normalization: converts an arbitrary-case operation name
//! ("GetUserProfile", "list-items") into lower-case, underscore-separated
//! form ("get_user_profile", "list_items").
//!
//! The rule: hyphens, underscores and spaces separate words and are consumed;
//! a word boundary also falls between a lower-case letter (or digit) and an
//! upper-case letter, between a letter and a digit, and inside an upper-case
//! run right before its last letter when a lower-case letter follows (so an
//! acronym stays one word: "HTTPRequest" becomes "http_request").  The words
//! are lower-cased and joined with underscores.  Case classification is
//! ASCII; other characters pass through unchanged as word characters.

use vstd::prelude::*;

verus! {

use vstd::string::StrSliceExecFns;
use vstd::string::StringExecFns;

/// Relies on `String::push`: appends one character at the end.
pub assume_specification[ String::push ](s: &mut String, c: char)
    ensures
        final(s)@ == old(s)@.push(c),
;

/// An ASCII upper-case letter.
pub open spec fn is_upper(c: char) -> bool {
    'A' <= c && c <= 'Z'
}

/// An ASCII lower-case letter.
pub open spec fn is_lower(c: char) -> bool {
    'a' <= c && c <= 'z'
}

/// An ASCII digit.
pub open spec fn is_digit(c: char) -> bool {
    '0' <= c && c <= '9'
}

/// A word separator in the source identifier: hyphen, underscore or space.
pub open spec fn is_sep(c: char) -> bool {
    c == '-' || c == '_' || c == ' '
}

/// Lower-cases an ASCII upper-case letter; leaves every other character alone.
pub open spec fn to_lower(c: char) -> char {
    if is_upper(c) {
        (((c as u8) + 32) as char)
    } else {
        c
    }
}

/// Executable counterpart of `to_lower`.
fn to_lower_exec(c: char) -> (r: char)
    ensures
        r == to_lower(c),
{
    if 'A' <= c && c <= 'Z' {
        ((c as u8) + 32) as char
    } else {
        c
    }
}

/// A word boundary that is decided by two neighbouring characters alone:
/// lower-to-upper, and every letter-digit or digit-letter transition.
pub open spec fn two_char_boundary(p: char, c: char) -> bool {
    ||| (is_lower(p) && is_upper(c))
    ||| (is_lower(p) && is_digit(c))
    ||| (is_upper(p) && is_digit(c))
    ||| (is_digit(p) && is_lower(c))
    ||| (is_digit(p) && is_upper(c))
}

/// The acronym boundary: between two upper-case letters when a lower-case
/// letter follows the second one.
pub open spec fn acronym_boundary(p: char, c: char, next: Option<char>) -> bool {
    is_upper(p) && is_upper(c) && (next matches Some(n) && is_lower(n))
}

/// A word boundary between a previous character `p` and the current
/// character `c`, with `next` the character after `c` if any.
pub open spec fn boundary_at(p: char, c: char, next: Option<char>) -> bool {
    two_char_boundary(p, c) || acronym_boundary(p, c, next)
}

/// The character after the first one of `s`, if any.
pub open spec fn peek(s: Seq<char>) -> Option<char> {
    if s.len() >= 2 {
        Some(s[1])
    } else {
        None
    }
}

/// Splits the remaining input `s` into words, with `cur` the word collected
/// so far.  Separators are consumed and finish the current word (possibly
/// empty); a boundary finishes the current word and starts the next one with
/// the current character.  The collected word is always emitted at the end,
/// so a trailing separator yields a trailing empty word.
pub open spec fn words_rec(s: Seq<char>, cur: Seq<char>) -> Seq<Seq<char>>
    decreases s.len(),
{
    if s.len() == 0 {
        seq![cur]
    } else {
        let c = s[0];
        if is_sep(c) {
            seq![cur] + words_rec(s.drop_first(), Seq::empty())
        } else if cur.len() > 0 && boundary_at(cur.last(), c, peek(s)) {
            seq![cur] + words_rec(s.drop_first(), seq![c])
        } else {
            words_rec(s.drop_first(), cur.push(c))
        }
    }
}

/// The words of an identifier; the empty identifier has none.
pub open spec fn words(s: Seq<char>) -> Seq<Seq<char>> {
    if s.len() == 0 {
        Seq::empty()
    } else {
        words_rec(s, Seq::empty())
    }
}

/// A word with every character lower-cased.
pub open spec fn lower_word(w: Seq<char>) -> Seq<char> {
    Seq::new(w.len(), |i: int| to_lower(w[i]))
}

/// Every word lower-cased.
pub open spec fn lower_all(ws: Seq<Seq<char>>) -> Seq<Seq<char>> {
    Seq::new(ws.len(), |i: int| lower_word(ws[i]))
}

/// Words joined with single underscores.
pub open spec fn join(ws: Seq<Seq<char>>) -> Seq<char>
    decreases ws.len(),
{
    if ws.len() == 0 {
        Seq::empty()
    } else if ws.len() == 1 {
        ws[0]
    } else {
        ws[0] + seq!['_'] + join(ws.drop_first())
    }
}

/// The normalized, snake-case form of an identifier.
pub open spec fn snake_spec(s: Seq<char>) -> Seq<char> {
    join(lower_all(words(s)))
}

/// No separators and no two-character boundary inside the word: what holds
/// of every word that splitting produces.
pub open spec fn word_ok(w: Seq<char>) -> bool {
    &&& forall|k: int| 0 <= k < w.len() ==> !is_sep(#[trigger] w[k])
    &&& forall|k: int| 0 <= k && k + 1 < w.len() ==> !two_char_boundary(#[trigger] w[k], w[k + 1])
}

/// A word that splitting maps to itself: `word_ok` and no upper-case letter,
/// so no boundary of any kind can fall inside it.
pub open spec fn smooth(w: Seq<char>) -> bool {
    word_ok(w) && forall|k: int| 0 <= k < w.len() ==> !is_upper(#[trigger] w[k])
}

/// How `to_lower` moves a character between the classes.
proof fn lemma_to_lower_class(c: char)
    ensures
        !is_upper(to_lower(c)),
        is_digit(to_lower(c)) == is_digit(c),
        is_sep(to_lower(c)) == is_sep(c),
        is_lower(to_lower(c)) <==> (is_lower(c) || is_upper(c)),
        to_lower(to_lower(c)) == to_lower(c),
        !is_upper(c) ==> to_lower(c) == c,
{
}

/// Splitting only produces words that satisfy `word_ok`.
proof fn lemma_words_rec_ok(s: Seq<char>, cur: Seq<char>)
    requires
        word_ok(cur),
    ensures
        forall|j: int| 0 <= j < words_rec(s, cur).len() ==> word_ok(#[trigger] words_rec(s, cur)[j]),
    decreases s.len(),
{
    if s.len() == 0 {
        assert(words_rec(s, cur) == seq![cur]);
        assert(words_rec(s, cur)[0] == cur);
    } else {
        let c = s[0];
        if is_sep(c) {
            let e: Seq<char> = Seq::empty();
            let r2 = words_rec(s.drop_first(), e);
            lemma_words_rec_ok(s.drop_first(), e);
            assert(words_rec(s, cur) == seq![cur] + r2);
            assert forall|j: int| 0 <= j < words_rec(s, cur).len() implies word_ok(
                #[trigger] words_rec(s, cur)[j],
            ) by {
                if j == 0 {
                    assert(words_rec(s, cur)[j] == cur);
                } else {
                    assert(words_rec(s, cur)[j] == r2[j - 1]);
                }
            }
        } else if cur.len() > 0 && boundary_at(cur.last(), c, peek(s)) {
            assert(word_ok(seq![c]));
            let r2 = words_rec(s.drop_first(), seq![c]);
            lemma_words_rec_ok(s.drop_first(), seq![c]);
            assert(words_rec(s, cur) == seq![cur] + r2);
            assert forall|j: int| 0 <= j < words_rec(s, cur).len() implies word_ok(
                #[trigger] words_rec(s, cur)[j],
            ) by {
                if j == 0 {
                    assert(words_rec(s, cur)[j] == cur);
                } else {
                    assert(words_rec(s, cur)[j] == r2[j - 1]);
                }
            }
        } else {
            let cur2 = cur.push(c);
            assert forall|k: int| 0 <= k && k + 1 < cur2.len() implies !two_char_boundary(
                #[trigger] cur2[k],
                cur2[k + 1],
            ) by {
                if k + 1 == cur.len() {
                    assert(cur2[k] == cur.last());
                    assert(cur2[k + 1] == c);
                } else {
                    assert(cur2[k] == cur[k]);
                    assert(cur2[k + 1] == cur[k + 1]);
                }
            }
            assert(word_ok(cur2));
            lemma_words_rec_ok(s.drop_first(), cur2);
            assert forall|j: int| 0 <= j < words_rec(s, cur).len() implies word_ok(
                #[trigger] words_rec(s, cur)[j],
            ) by {
                assert(words_rec(s, cur)[j] == words_rec(s.drop_first(), cur2)[j]);
            }
        }
    }
}

/// Splitting always yields at least one word.
proof fn lemma_words_rec_len(s: Seq<char>, cur: Seq<char>)
    ensures
        words_rec(s, cur).len() >= 1,
    decreases s.len(),
{
    if s.len() == 0 {
    } else if is_sep(s[0]) {
        lemma_words_rec_len(s.drop_first(), Seq::empty());
    } else if cur.len() > 0 && boundary_at(cur.last(), s[0], peek(s)) {
        lemma_words_rec_len(s.drop_first(), seq![s[0]]);
    } else {
        lemma_words_rec_len(s.drop_first(), cur.push(s[0]));
    }
}

/// When splitting yields a single word, that word holds everything:
/// the collected prefix and all remaining characters.
proof fn lemma_words_rec_single(s: Seq<char>, cur: Seq<char>)
    ensures
        words_rec(s, cur).len() == 1 ==> words_rec(s, cur)[0].len() == cur.len() + s.len(),
    decreases s.len(),
{
    if s.len() == 0 {
    } else if is_sep(s[0]) {
        lemma_words_rec_len(s.drop_first(), Seq::empty());
    } else if cur.len() > 0 && boundary_at(cur.last(), s[0], peek(s)) {
        lemma_words_rec_len(s.drop_first(), seq![s[0]]);
    } else {
        lemma_words_rec_single(s.drop_first(), cur.push(s[0]));
    }
}

/// Lower-casing a `word_ok` word yields a `smooth` word of the same length.
proof fn lemma_lower_smooth(w: Seq<char>)
    requires
        word_ok(w),
    ensures
        smooth(lower_word(w)),
        lower_word(w).len() == w.len(),
{
    let lw = lower_word(w);
    assert forall|k: int| 0 <= k < lw.len() implies !is_sep(#[trigger] lw[k]) && !is_upper(lw[k]) by {
        lemma_to_lower_class(w[k]);
    }
    assert forall|k: int| 0 <= k && k + 1 < lw.len() implies !two_char_boundary(
        #[trigger] lw[k],
        lw[k + 1],
    ) by {
        lemma_to_lower_class(w[k]);
        lemma_to_lower_class(w[k + 1]);
    }
}

/// Consuming a smooth word never splits: the word moves whole from the
/// input to the collected prefix.
proof fn lemma_consume_word(l: Seq<char>, t: Seq<char>, p: Seq<char>)
    requires
        p.len() > 0,
        smooth(p + l),
    ensures
        words_rec(l + t, p) == words_rec(t, p + l),
    decreases l.len(),
{
    if l.len() == 0 {
        assert(l + t =~= t);
        assert(p + l =~= p);
    } else {
        let c = l[0];
        let pl = p + l;
        assert(c == pl[p.len() as int]);
        assert(!is_sep(c));
        assert(p.last() == pl[p.len() - 1]);
        assert(!two_char_boundary(p.last(), c));
        assert(!is_upper(p.last()));
        assert(!boundary_at(p.last(), c, peek(l + t)));
        assert((l + t)[0] == c);
        assert((l + t).len() > 0);
        assert((l + t).drop_first() =~= l.drop_first() + t);
        assert(p.push(c) + l.drop_first() =~= p + l);
        lemma_consume_word(l.drop_first(), t, p.push(c));
        assert(words_rec(l + t, p) == words_rec(l.drop_first() + t, p.push(c)));
    }
}

/// Splitting the underscore-join of smooth words recovers exactly those words.
proof fn lemma_split_join(ws: Seq<Seq<char>>)
    requires
        ws.len() >= 1,
        forall|j: int| 0 <= j < ws.len() ==> smooth(#[trigger] ws[j]),
    ensures
        words_rec(join(ws), Seq::empty()) == ws,
    decreases ws.len(),
{
    let e: Seq<char> = Seq::empty();
    if ws.len() == 1 {
        let w = ws[0];
        assert(join(ws) == w);
        if w.len() == 0 {
            assert(w =~= e);
            assert(words_rec(e, e) =~= seq![e]);
            assert(ws =~= seq![w]);
        } else {
            let c = w[0];
            assert(!is_sep(c));
            assert(words_rec(w, e) == words_rec(w.drop_first(), e.push(c)));
            assert(e.push(c) =~= seq![c]);
            assert(seq![c] + w.drop_first() =~= w);
            assert(w.drop_first() + e =~= w.drop_first());
            lemma_consume_word(w.drop_first(), e, seq![c]);
            assert(words_rec(w.drop_first(), seq![c]) == words_rec(e, w));
            assert(words_rec(e, w) =~= seq![w]);
            assert(ws =~= seq![w]);
        }
    } else {
        let w = ws[0];
        let rest = ws.drop_first();
        assert(forall|j: int| 0 <= j < rest.len() ==> smooth(#[trigger] rest[j]));
        let jrest = join(rest);
        let s = join(ws);
        assert(s == w + seq!['_'] + jrest);
        if w.len() == 0 {
            assert(s =~= seq!['_'] + jrest);
            assert(s[0] == '_');
            assert(is_sep('_'));
            assert(s.drop_first() =~= jrest);
            lemma_split_join(rest);
            assert(words_rec(s, e) == seq![e] + rest);
            assert(w =~= e);
            assert(seq![e] + rest =~= ws);
        } else {
            let c = w[0];
            assert(s[0] == c);
            assert(!is_sep(c));
            assert(s.len() > 0);
            assert(words_rec(s, e) == words_rec(s.drop_first(), e.push(c)));
            assert(e.push(c) =~= seq![c]);
            let t = seq!['_'] + jrest;
            assert(s.drop_first() =~= w.drop_first() + t);
            assert(seq![c] + w.drop_first() =~= w);
            lemma_consume_word(w.drop_first(), t, seq![c]);
            assert(words_rec(w.drop_first() + t, seq![c]) == words_rec(t, w));
            assert(t[0] == '_');
            assert(t.drop_first() =~= jrest);
            lemma_split_join(rest);
            assert(words_rec(t, w) == seq![w] + rest);
            assert(seq![w] + rest =~= ws);
        }
    }
}

/// Joining two or more words always yields at least one character.
proof fn lemma_join_two_nonempty(ws: Seq<Seq<char>>)
    requires
        ws.len() >= 2,
    ensures
        join(ws).len() >= 1,
{
}

/// The normalized form of a non-empty identifier is non-empty: every
/// handler identifier the renderer receives has at least one character.
pub proof fn lemma_snake_nonempty(s: Seq<char>)
    requires
        s.len() > 0,
    ensures
        snake_spec(s).len() > 0,
{
    let e: Seq<char> = Seq::empty();
    let ws = words(s);
    let ls = lower_all(ws);
    lemma_words_rec_len(s, e);
    if ws.len() == 1 {
        lemma_words_rec_single(s, e);
        assert(ls[0].len() == ws[0].len());
        assert(snake_spec(s) == ls[0]);
    } else {
        lemma_join_two_nonempty(ls);
    }
}

/// Normalization is idempotent: normalizing an already-normalized
/// identifier changes nothing.
pub proof fn lemma_snake_idempotent(s: Seq<char>)
    requires
        s.len() > 0,
    ensures
        snake_spec(snake_spec(s)) == snake_spec(s),
{
    let e: Seq<char> = Seq::empty();
    let ws = words(s);
    let ls = lower_all(ws);
    let out = join(ls);
    assert(word_ok(e));
    lemma_words_rec_ok(s, e);
    lemma_words_rec_len(s, e);
    assert forall|j: int| 0 <= j < ls.len() implies smooth(#[trigger] ls[j]) by {
        assert(word_ok(ws[j]));
        lemma_lower_smooth(ws[j]);
    }
    if ws.len() == 1 {
        lemma_words_rec_single(s, e);
        assert(ws[0].len() == s.len());
        lemma_lower_smooth(ws[0]);
        assert(out == ls[0]);
        assert(out.len() > 0);
    } else {
        lemma_join_two_nonempty(ls);
    }
    assert(out.len() > 0);
    lemma_split_join(ls);
    assert(words(out) == ls);
    let lls = lower_all(ls);
    assert forall|j: int| 0 <= j < ls.len() implies lls[j] == ls[j] by {
        let w = ws[j];
        lemma_lower_smooth(w);
        assert forall|k: int| 0 <= k < ls[j].len() implies lower_word(ls[j])[k] == ls[j][k] by {
            lemma_to_lower_class(w[k]);
            assert(ls[j][k] == to_lower(w[k]));
        }
        assert(lower_word(ls[j]) =~= ls[j]);
    }
    assert(lls =~= ls);
    assert(snake_spec(out) == join(lls));
}

/// Executable counterpart of `is_sep`.
fn is_sep_x(c: char) -> (b: bool)
    ensures
        b == is_sep(c),
{
    c == '-' || c == '_' || c == ' '
}

/// Executable counterpart of `boundary_at`.
fn boundary_x(p: char, c: char, next: Option<char>) -> (b: bool)
    ensures
        b == boundary_at(p, c, next),
{
    let p_lower = 'a' <= p && p <= 'z';
    let p_upper = 'A' <= p && p <= 'Z';
    let p_digit = '0' <= p && p <= '9';
    let c_lower = 'a' <= c && c <= 'z';
    let c_upper = 'A' <= c && c <= 'Z';
    let c_digit = '0' <= c && c <= '9';
    let two = (p_lower && c_upper) || (p_lower && c_digit) || (p_upper && c_digit) || (p_digit
        && c_lower) || (p_digit && c_upper);
    let next_lower = match next {
        Some(n) => 'a' <= n && n <= 'z',
        None => false,
    };
    two || (p_upper && c_upper && next_lower)
}

/// The characters of a string slice, in order.
fn to_char_vec(s: &str) -> (r: Vec<char>)
    ensures
        r@ == s@,
{
    let n = s.unicode_len();
    let mut v: Vec<char> = Vec::new();
    let mut i: usize = 0;
    while i < n
        invariant
            i <= n,
            n == s@.len(),
            v@ == s@.take(i as int),
        decreases n - i,
    {
        let c = s.get_char(i);
        v.push(c);
        proof {
            assert(v@ =~= s@.take(i as int + 1));
        }
        i += 1;
    }
    proof {
        assert(v@ =~= s@);
    }
    v
}

/// The views of a sequence of character vectors.
spec fn seq_views(vs: Seq<Vec<char>>) -> Seq<Seq<char>> {
    Seq::new(vs.len(), |i: int| vs[i]@)
}

/// Splits the characters from position `i` on into words, mirroring
/// `words_rec`.
fn words_from(cs: &Vec<char>, i: usize, cur: Vec<char>) -> (r: Vec<Vec<char>>)
    requires
        i <= cs.len(),
    ensures
        seq_views(r@) == words_rec(cs@.skip(i as int), cur@),
    decreases cs.len() - i,
{
    let ghost rest = cs@.skip(i as int);
    if i == cs.len() {
        proof {
            assert(rest =~= Seq::<char>::empty());
        }
        let mut r: Vec<Vec<char>> = Vec::new();
        r.push(cur);
        proof {
            assert(seq_views(r@) =~= seq![r@[0]@]);
        }
        r
    } else {
        let c = cs[i];
        let next: Option<char> = if i + 1 < cs.len() {
            Some(cs[i + 1])
        } else {
            None
        };
        proof {
            assert(rest[0] == cs@[i as int]);
            assert(rest.drop_first() =~= cs@.skip(i as int + 1));
            assert(peek(rest) == next);
        }
        if is_sep_x(c) {
            let ghost prev = cur@;
            let mut r = words_from(cs, i + 1, Vec::new());
            let ghost r2 = seq_views(r@);
            r.insert(0, cur);
            proof {
                assert(seq_views(r@) =~= seq![prev] + r2);
            }
            r
        } else if cur.len() > 0 && boundary_x(cur[cur.len() - 1], c, next) {
            proof {
                assert(cur@[cur@.len() - 1] == cur@.last());
            }
            let ghost prev = cur@;
            let mut ncur: Vec<char> = Vec::new();
            ncur.push(c);
            proof {
                assert(ncur@ =~= seq![c]);
            }
            let mut r = words_from(cs, i + 1, ncur);
            let ghost r2 = seq_views(r@);
            r.insert(0, cur);
            proof {
                assert(seq_views(r@) =~= seq![prev] + r2);
            }
            r
        } else {
            let mut cur2 = cur;
            cur2.push(c);
            words_from(cs, i + 1, cur2)
        }
    }
}

/// Lower-cases one word.
fn lower_str(w: &Vec<char>) -> (r: String)
    ensures
        r@ == lower_word(w@),
{
    let mut r = String::new();
    let mut j: usize = 0;
    while j < w.len()
        invariant
            j <= w.len(),
            r@ == lower_word(w@).take(j as int),
        decreases w.len() - j,
    {
        let c = w[j];
        r.push(to_lower_exec(c));
        proof {
            assert(r@ =~= lower_word(w@).take(j as int + 1));
        }
        j += 1;
    }
    proof {
        assert(r@ =~= lower_word(w@));
    }
    r
}

/// Lower-cases the words from position `i` on and joins them with
/// underscores, mirroring `join` over `lower_all`.
fn join_lower(ws: &Vec<Vec<char>>, i: usize) -> (r: String)
    requires
        i <= ws.len(),
    ensures
        r@ == join(lower_all(seq_views(ws@).skip(i as int))),
    decreases ws.len() - i,
{
    let ghost sub = seq_views(ws@).skip(i as int);
    if i == ws.len() {
        proof {
            assert(lower_all(sub) =~= Seq::<Seq<char>>::empty());
        }
        String::new()
    } else if i + 1 == ws.len() {
        let r = lower_str(&ws[i]);
        proof {
            assert(lower_all(sub).len() == 1);
            assert(lower_all(sub)[0] == lower_word(ws@[i as int]@));
        }
        r
    } else {
        let mut r = lower_str(&ws[i]);
        r.push('_');
        let tail = join_lower(ws, i + 1);
        let out = r.concat(tail.as_str());
        proof {
            let low = lower_all(sub);
            assert(low.len() >= 2);
            assert(low[0] == lower_word(ws@[i as int]@));
            assert(low.drop_first() =~= lower_all(seq_views(ws@).skip(i as int + 1)));
            assert(out@ =~= low[0] + seq!['_'] + join(low.drop_first()));
        }
        out
    }
}

/// Normalizes an operation name to its snake-case identifier form.
pub fn normalize(s: &str) -> (r: String)
    ensures
        r@ == snake_spec(s@),
{
    let cs = to_char_vec(s);
    if cs.len() == 0 {
        proof {
            assert(lower_all(words(s@)) =~= Seq::<Seq<char>>::empty());
        }
        String::new()
    } else {
        let ws = words_from(&cs, 0, Vec::new());
        let r = join_lower(&ws, 0);
        proof {
            assert(cs@.skip(0) =~= cs@);
            assert(seq_views(ws@).skip(0) =~= seq_views(ws@));
        }
        r
    }
}

} // verus!
