//! What an appearance shows: all of its text, and the pixels of its logo.
use vstd::prelude::*;

use crate::appearance::{
    add_fresh, add_word, appearance_added, chunked, descriptor_obj, fill_lines, font_added, font_header, font_obj,
    fontfile_obj, form_obj, fresh, gray_alpha_of, gray_of, helvetica_obj, image_added, image_obj, image_of,
    jpeg_frame, line_bytes, png_embedded, rgb_alpha_of, rgb_of, wrap_paragraph, wrap_paragraphs, wrapped, PngView,
};
use crate::incremental::{law_insert_item, ordered, zlib, Item};
use crate::options::Appearance;
use crate::text::{is_white, next_char, skip_white, split_from, trim, trim_end, word_end, words_from};

verus! {

// ---------------------------------------------------------------------------
// Text

/// The characters of a text that are no white space.
pub open spec fn visible(s: Seq<char>) -> Seq<char>
    decreases s.len(),
{
    if s.len() == 0 {
        Seq::empty()
    } else if is_white(s.last()) {
        visible(s.drop_last())
    } else {
        visible(s.drop_last()).push(s.last())
    }
}

/// The visible characters of lines, one behind the other.
pub open spec fn all_visible(lines: Seq<Seq<char>>) -> Seq<char>
    decreases lines.len(),
{
    if lines.len() == 0 {
        Seq::empty()
    } else {
        all_visible(lines.drop_last()) + visible(lines.last())
    }
}

proof fn lemma_visible_concat(a: Seq<char>, b: Seq<char>)
    ensures
        visible(a + b) == visible(a) + visible(b),
    decreases b.len(),
{
    if b.len() == 0 {
        assert(a + b =~= a);
        assert(visible(a) + visible(b) =~= visible(a));
    } else {
        lemma_visible_concat(a, b.drop_last());
        assert((a + b).drop_last() =~= a + b.drop_last());
        assert((a + b).last() == b.last());
        assert(visible(a + b) =~= visible(a) + visible(b));
    }
}

proof fn lemma_all_concat(a: Seq<Seq<char>>, b: Seq<Seq<char>>)
    ensures
        all_visible(a + b) == all_visible(a) + all_visible(b),
    decreases b.len(),
{
    if b.len() == 0 {
        assert(a + b =~= a);
        assert(all_visible(a) + all_visible(b) =~= all_visible(a));
    } else {
        lemma_all_concat(a, b.drop_last());
        assert((a + b).drop_last() =~= a + b.drop_last());
        assert((a + b).last() == b.last());
        assert(all_visible(a + b) =~= all_visible(a) + all_visible(b));
    }
}

proof fn lemma_all_one(x: Seq<char>)
    ensures
        all_visible(seq![x]) == visible(x),
{
    assert(seq![x].drop_last() =~= Seq::empty());
    assert(all_visible(seq![x].drop_last()) =~= Seq::empty());
    assert(seq![x].last() == x);
    assert(all_visible(seq![x]) =~= visible(x));
}

proof fn lemma_all_push(a: Seq<Seq<char>>, x: Seq<char>)
    ensures
        all_visible(a.push(x)) == all_visible(a) + visible(x),
{
    assert(a.push(x).drop_last() =~= a);
}

proof fn lemma_chunked(out: Seq<Seq<char>>, word: Seq<char>, max: nat)
    ensures
        ({
            let (lines, cur) = chunked(out, word, max);
            all_visible(lines) + visible(cur) == all_visible(out) + visible(word)
        }),
    decreases word.len(),
{
    if word.len() > max && max > 0 {
        let (a, b) = (word.take(max as int), word.skip(max as int));
        lemma_chunked(out.push(a), b, max);
        lemma_all_push(out, a);
        lemma_visible_concat(a, b);
        assert(a + b =~= word);
        assert(all_visible(out.push(a)) + visible(b) =~= all_visible(out) + visible(word));
    }
}

proof fn lemma_add_word(out: Seq<Seq<char>>, cur: Seq<char>, word: Seq<char>, max: nat)
    ensures
        ({
            let (lines, rest) = add_word(out, cur, word, max);
            all_visible(lines) + visible(rest) == all_visible(out) + visible(cur) + visible(word)
        }),
{
    if cur.len() == 0 {
        lemma_chunked(out, word, max);
        assert(all_visible(out) + visible(cur) =~= all_visible(out));
    } else if cur.len() + 1 + word.len() <= max {
        assert(cur.push(' ').drop_last() =~= cur);
        assert(is_white(' '));
        assert(visible(cur.push(' ')) == visible(cur));
        lemma_visible_concat(cur.push(' '), word);
        assert(all_visible(out) + (visible(cur) + visible(word)) =~= all_visible(out) + visible(cur) + visible(word));
    } else {
        lemma_all_push(out, cur);
        lemma_chunked(out.push(cur), word, max);
    }
}

proof fn lemma_fill(words: Seq<Seq<char>>, max: nat)
    ensures
        ({
            let (lines, rest) = fill_lines(words, max);
            all_visible(lines) + visible(rest) == all_visible(words)
        }),
    decreases words.len(),
{
    if words.len() == 0 {
        assert(all_visible(Seq::<Seq<char>>::empty()) + visible(Seq::empty()) =~= Seq::<char>::empty());
    } else {
        lemma_fill(words.drop_last(), max);
        let (out, cur) = fill_lines(words.drop_last(), max);
        lemma_add_word(out, cur, words.last(), max);
    }
}

proof fn lemma_trim_end(s: Seq<char>)
    ensures
        visible(trim_end(s)) == visible(s),
    decreases s.len(),
{
    if s.len() > 0 && is_white(s.last()) {
        lemma_trim_end(s.drop_last());
    }
}

proof fn lemma_all_white(s: Seq<char>, i: int, j: int)
    requires
        0 <= i <= j <= s.len(),
        forall|k: int| i <= k < j ==> is_white(#[trigger] s[k]),
    ensures
        visible(s.subrange(i, j)) == Seq::<char>::empty(),
    decreases j - i,
{
    if i < j {
        lemma_all_white(s, i, j - 1);
        assert(s.subrange(i, j).drop_last() =~= s.subrange(i, j - 1));
    }
}

proof fn lemma_no_white(s: Seq<char>, i: int, j: int)
    requires
        0 <= i <= j <= s.len(),
        forall|k: int| i <= k < j ==> !is_white(#[trigger] s[k]),
    ensures
        visible(s.subrange(i, j)) == s.subrange(i, j),
    decreases j - i,
{
    if i < j {
        lemma_no_white(s, i, j - 1);
        assert(s.subrange(i, j).drop_last() =~= s.subrange(i, j - 1));
        assert(visible(s.subrange(i, j)) =~= s.subrange(i, j));
    } else {
        assert(s.subrange(i, j) =~= Seq::empty());
    }
}

proof fn lemma_skipped(s: Seq<char>, i: int)
    requires
        0 <= i <= s.len(),
    ensures
        i <= skip_white(s, i) <= s.len(),
        forall|k: int| i <= k < skip_white(s, i) ==> is_white(#[trigger] s[k]),
        skip_white(s, i) < s.len() ==> !is_white(s[skip_white(s, i)]),
    decreases s.len() - i,
{
    if i < s.len() && is_white(s[i]) {
        lemma_skipped(s, i + 1);
    }
}

proof fn lemma_word(s: Seq<char>, i: int)
    requires
        0 <= i <= s.len(),
    ensures
        i <= word_end(s, i) <= s.len(),
        forall|k: int| i <= k < word_end(s, i) ==> !is_white(#[trigger] s[k]),
        word_end(s, i) < s.len() ==> is_white(s[word_end(s, i)]),
    decreases s.len() - i,
{
    if i < s.len() && !is_white(s[i]) {
        lemma_word(s, i + 1);
    }
}

/// The words of a text are its longest parts without white space: none is empty, none holds
/// white space, and together they are what is visible of the text.
pub proof fn law_words(s: Seq<char>, i: int)
    requires
        0 <= i <= s.len(),
    ensures
        all_visible(words_from(s, i)) == visible(s.skip(i)),
        forall|k: int|
            0 <= k < words_from(s, i).len() ==> (#[trigger] words_from(s, i)[k]).len() > 0 && visible(
                words_from(s, i)[k],
            ) == words_from(s, i)[k],
    decreases s.len() - i,
{
    lemma_skipped(s, i);
    let a = skip_white(s, i);
    lemma_all_white(s, i, a);
    if a < s.len() {
        lemma_word(s, a);
        let e = word_end(s, a);
        assert(e > a);
        lemma_no_white(s, a, e);
        law_words(s, e);
        let w = s.subrange(a, e);
        let rest = words_from(s, e);
        let all = words_from(s, i);
        assert(all == seq![w] + rest);
        lemma_all_concat(seq![w], rest);
        lemma_all_one(w);
        assert(s.skip(i) =~= s.subrange(i, a) + (w + s.skip(e)));
        lemma_visible_concat(s.subrange(i, a), w + s.skip(e));
        lemma_visible_concat(w, s.skip(e));
        assert(all_visible(all) =~= visible(s.skip(i)));
        assert forall|k: int| 0 <= k < all.len() implies (#[trigger] all[k]).len() > 0 && visible(all[k]) == all[k] by {
            if k > 0 {
                assert(all[k] == rest[k - 1]);
            }
        }
    } else {
        assert(s.skip(i) =~= s.subrange(i, a));
        assert(words_from(s, i) =~= Seq::empty());
    }
}

proof fn lemma_split(s: Seq<char>, c: char, i: int)
    requires
        0 <= i <= s.len(),
        is_white(c),
    ensures
        all_visible(split_from(s, c, i)) == visible(s.skip(i)),
    decreases s.len() - i,
{
    let e = next_char(s, c, i);
    lemma_next(s, c, i);
    if e < s.len() {
        lemma_split(s, c, e + 1);
        let w = s.subrange(i, e);
        let rest = split_from(s, c, e + 1);
        assert(split_from(s, c, i) == seq![w] + rest);
        lemma_all_concat(seq![w], rest);
        lemma_all_one(w);
        assert(s.skip(i) =~= w + (seq![c] + s.skip(e + 1)));
        lemma_visible_concat(w, seq![c] + s.skip(e + 1));
        lemma_visible_concat(seq![c], s.skip(e + 1));
        assert(seq![c].drop_last() =~= Seq::empty());
        assert(visible(seq![c].drop_last()) =~= Seq::empty());
        assert(seq![c].last() == c);
        assert(visible(seq![c]) == Seq::<char>::empty());
        assert(all_visible(split_from(s, c, i)) =~= visible(s.skip(i)));
    } else {
        assert(s.subrange(i, s.len() as int) =~= s.skip(i));
        lemma_all_one(s.skip(i));
    }
}

proof fn lemma_next(s: Seq<char>, c: char, i: int)
    requires
        0 <= i <= s.len(),
    ensures
        i <= next_char(s, c, i) <= s.len(),
        next_char(s, c, i) < s.len() ==> s[next_char(s, c, i)] == c,
    decreases s.len() - i,
{
    if i < s.len() && s[i] != c {
        lemma_next(s, c, i + 1);
    }
}

proof fn lemma_paragraph(p: Seq<char>, max: nat)
    ensures
        all_visible(wrap_paragraph(p, max)) == visible(p),
{
    let t = trim_end(p);
    lemma_trim_end(p);
    if t.len() == 0 {
        lemma_all_one(Seq::empty());
        assert(t =~= Seq::empty());
    } else {
        let words = words_from(t, 0);
        law_words(t, 0);
        assert(t.skip(0) =~= t);
        lemma_fill(words, max);
        let (out, cur) = fill_lines(words, max);
        lemma_all_push(out, cur);
        if cur.len() == 0 {
            assert(all_visible(out) + visible(cur) =~= all_visible(out));
        }
    }
}

proof fn lemma_paragraphs(ps: Seq<Seq<char>>, max: nat)
    ensures
        all_visible(wrap_paragraphs(ps, max)) == all_visible(ps),
    decreases ps.len(),
{
    if ps.len() > 0 {
        lemma_paragraphs(ps.drop_last(), max);
        lemma_paragraph(ps.last(), max);
        lemma_all_concat(wrap_paragraphs(ps.drop_last(), max), wrap_paragraph(ps.last(), max));
    }
}

/// Wrapping loses nothing: what is visible in the lines is what is visible in the text, in
/// its order.
pub proof fn law_wrapping_keeps_the_text(text: Seq<char>, max: nat)
    ensures
        all_visible(wrapped(text, max)) == visible(text),
{
    let ps = split_from(text, '\n', 0);
    assert(is_white('\n'));
    lemma_split(text, '\n', 0);
    assert(text.skip(0) =~= text);
    lemma_paragraphs(ps, if max == 0 { 1 } else { max });
}

/// A word that still fits behind the words of a line goes there, behind a space; one that
/// does not fit begins a line of its own, and only one longer than a line is cut.
pub proof fn law_lines_are_filled(out: Seq<Seq<char>>, cur: Seq<char>, word: Seq<char>, max: nat)
    requires
        cur.len() > 0,
        max > 0,
    ensures
        cur.len() + 1 + word.len() <= max ==> add_word(out, cur, word, max) == (out, cur + seq![' '] + word),
        cur.len() + 1 + word.len() > max && word.len() <= max ==> add_word(out, cur, word, max) == (out.push(cur), word),
{
    assert(cur.push(' ') + word =~= cur + seq![' '] + word);
}

/// Text is written in one byte for each character, a question mark for one beyond 255, with
/// a backslash before brackets and backslashes.
pub proof fn law_text_is_escaped(s: Seq<char>, c: char)
    ensures
        line_bytes(s.push(c)) == line_bytes(s) + (if c == '(' || c == ')' || c == '\\' {
            seq![0x5cu8, c as u8]
        } else if c as int > 0xff {
            seq![0x3fu8]
        } else {
            seq![c as u8]
        }),
        line_bytes(Seq::empty()) == Seq::<u8>::empty(),
{
    assert(s.push(c).drop_last() =~= s);
    let u = c as u32;
    if u <= 0xff {
        assert(c as u8 == u as u8);
        if c as u8 == 0x28 {
            assert(u == 0x28);
            assert(c == '(');
        }
        if c as u8 == 0x29 {
            assert(u == 0x29);
            assert(c == ')');
        }
        if c as u8 == 0x5c {
            assert(u == 0x5c);
            assert(c == '\\');
        }
    }
}

/// White space at the ends of a text is dropped, and nothing else.
pub proof fn law_trimming(a: Seq<char>, s: Seq<char>, b: Seq<char>)
    requires
        forall|k: int| 0 <= k < a.len() ==> is_white(#[trigger] a[k]),
        forall|k: int| 0 <= k < b.len() ==> is_white(#[trigger] b[k]),
        s.len() > 0 && !is_white(s[0]) && !is_white(s[s.len() - 1]),
    ensures
        trim(a + s + b) == s,
{
    let t = a + s + b;
    lemma_skip_to(t, 0, a.len() as int);
    assert(t.skip(a.len() as int) =~= s + b);
    lemma_trim_to(s, b);
}

proof fn lemma_skip_to(t: Seq<char>, i: int, n: int)
    requires
        0 <= i <= n < t.len(),
        forall|k: int| i <= k < n ==> is_white(#[trigger] t[k]),
        !is_white(t[n]),
    ensures
        skip_white(t, i) == n,
    decreases n - i,
{
    if i < n {
        lemma_skip_to(t, i + 1, n);
    }
}

proof fn lemma_trim_to(s: Seq<char>, b: Seq<char>)
    requires
        forall|k: int| 0 <= k < b.len() ==> is_white(#[trigger] b[k]),
        s.len() > 0 && !is_white(s[s.len() - 1]),
    ensures
        trim_end(s + b) == s,
    decreases b.len(),
{
    if b.len() > 0 {
        let c = b.drop_last();
        assert forall|k: int| 0 <= k < c.len() implies is_white(#[trigger] c[k]) by {
            assert(c[k] == b[k]);
        }
        lemma_trim_to(s, c);
        assert((s + b).drop_last() =~= s + c);
        assert((s + b).last() == b[b.len() - 1]);
    } else {
        assert(s + b =~= s);
    }
}

// ---------------------------------------------------------------------------
// Images

/// Colour and alpha are taken apart pixel by pixel, and lose no sample of a whole pixel.
pub proof fn law_pixels_are_split(data: Seq<u8>, k: int)
    ensures
        rgb_of(data).len() == 3 * (data.len() / 4),
        rgb_alpha_of(data).len() == data.len() / 4,
        gray_of(data).len() == data.len() / 2,
        gray_alpha_of(data).len() == data.len() / 2,
        0 <= k < data.len() / 4 ==> rgb_of(data)[3 * k] == data[4 * k] && rgb_of(data)[3 * k + 1] == data[4 * k + 1]
            && rgb_of(data)[3 * k + 2] == data[4 * k + 2] && rgb_alpha_of(data)[k] == data[4 * k + 3],
        0 <= k < data.len() / 2 ==> gray_of(data)[k] == data[2 * k] && gray_alpha_of(data)[k] == data[2 * k + 1],
{
    assert((3 * k) / 3 == k && (3 * k + 1) / 3 == k && (3 * k + 2) / 3 == k);
    assert((3 * k) % 3 == 0 && (3 * k + 1) % 3 == 1 && (3 * k + 2) % 3 == 2);
}

/// A decoded PNG is embedded with its own size; gray and coloured ones as they are, those
/// with alpha with a mask. Other kinds are refused.
pub proof fn law_png_kinds(p: PngView)
    ensures
        png_embedded(p) is Ok <==> p.color_type == 0 || p.color_type == 2 || p.color_type == 4 || p.color_type == 6,
        png_embedded(p) matches Ok(v) ==> {
            &&& v.width == p.width && v.height == p.height && v.filter == "FlateDecode"@
            &&& v.color_space == (if p.color_type == 2 || p.color_type == 6 {
                "DeviceRGB"@
            } else {
                "DeviceGray"@
            })
            &&& p.color_type == 0 || p.color_type == 2 ==> v.data == zlib(p.data) && v.smask is None
            &&& p.color_type == 4 ==> v.data == zlib(gray_of(p.data)) && v.smask == Some(zlib(gray_alpha_of(p.data)))
            &&& p.color_type == 6 ==> v.data == zlib(rgb_of(p.data)) && v.smask == Some(zlib(rgb_alpha_of(p.data)))
        },
{
}

/// A marker that begins a frame of a JPEG: one of the sixteen from `SOF0` on that is no
/// table and not reserved.
pub open spec fn begins_frame(m: u8) -> bool {
    m == 0xc0 || m == 0xc1 || m == 0xc2 || m == 0xc3 || m == 0xc5 || m == 0xc6 || m == 0xc7 || m == 0xc9 || m == 0xca || m
        == 0xcb || m == 0xcd || m == 0xce || m == 0xcf
}

/// The segments of a JPEG from `i` up to `j`: markers that begin no frame, each with its
/// length.
pub open spec fn segments(b: Seq<u8>, i: int, j: int) -> bool
    decreases j - i,
{
    i == j || (2 <= i < j && i + 9 < b.len() && b[i] == 0xff && !begins_frame(b[i + 1]) && i + 2 + (b[i + 2] * 256
        + b[i + 3]) <= j && segments(b, i + 2 + (b[i + 2] * 256 + b[i + 3]), j))
}

proof fn lemma_segments(b: Seq<u8>, i: int, j: int)
    requires
        segments(b, i, j),
        2 <= i <= j,
    ensures
        jpeg_frame(b, i) == jpeg_frame(b, j),
    decreases j - i,
{
    if i < j {
        let n = i + 2 + (b[i + 2] * 256 + b[i + 3]);
        lemma_segments(b, n, j);
    }
}

/// The size of a JPEG is that of its first frame, height before width, and one component
/// makes it gray; its bytes are embedded as they are.
pub proof fn law_jpeg_size(b: Seq<u8>, j: int)
    requires
        b.len() >= 4,
        b[0] == 0xff && b[1] == 0xd8,
        2 <= j && j + 9 < b.len(),
        segments(b, 2, j),
        b[j] == 0xff && begins_frame(b[j + 1]),
    ensures
        image_of(b) matches Ok(v) && {
            &&& v.height == b[j + 5] * 256 + b[j + 6]
            &&& v.width == b[j + 7] * 256 + b[j + 8]
            &&& v.color_space == (if b[j + 9] == 1 {
                "DeviceGray"@
            } else {
                "DeviceRGB"@
            })
            &&& v.filter == "DCTDecode"@ && v.data == b && v.smask is None
        },
{
    lemma_segments(b, 2, j);
}

// ---------------------------------------------------------------------------
// Objects

/// The numbers of all items are below.
pub open spec fn numbered_below(s: Seq<Item>, n: int) -> bool {
    forall|y: Item| #[trigger] s.contains(y) ==> y.id < n
}

/// An item with a number, of the first generation.
pub open spec fn has(s: Seq<Item>, n: int, o: crate::object::Obj) -> bool {
    s.contains(Item { id: n as u32, gen: 0, obj: o })
}

proof fn lemma_added(s: Seq<Item>, n: int, o: crate::object::Obj)
    requires
        ordered(s),
        numbered_below(s, n),
        0 <= n <= u32::MAX,
    ensures
        ordered(add_fresh(s, n, o)),
        numbered_below(add_fresh(s, n, o), n + 1),
        has(add_fresh(s, n, o), n, o),
        forall|y: Item| s.contains(y) ==> #[trigger] add_fresh(s, n, o).contains(y),
{
    let x = Item { id: n as u32, gen: 0, obj: o };
    law_insert_item(s, x);
    let t = add_fresh(s, n, o);
    assert forall|y: Item| #[trigger] t.contains(y) implies y.id < n + 1 by {
        if y.id != x.id {
            assert(s.contains(y));
        }
    }
    assert forall|y: Item| s.contains(y) implies #[trigger] t.contains(y) by {
        assert(y.id < n);
    }
}

/// The objects of an appearance: its font, embedded with descriptor and program or
/// Helvetica; its logo, with its mask where it has one; and the form that refers to them.
pub proof fn law_appearance_objects(s: Seq<Item>, n: int, app: Appearance)
    requires
        ordered(s),
        numbered_below(s, n),
        0 <= n,
        appearance_added(s, n, app) matches Ok((_, next, _)) && next <= u32::MAX,
    ensures
        appearance_added(s, n, app) matches Ok((t, next, form)) && {
            let m = if app.font is Some {
                n + 3
            } else {
                n + 1
            };
            &&& match app.font {
                Some(f) => font_header(f@) matches Ok(h) && has(t, n, font_obj(f@, h.units_per_em, fresh(n + 1))) && has(
                    t,
                    n + 1,
                    descriptor_obj(h, fresh(n + 2)),
                ) && has(t, n + 2, fontfile_obj(f@)),
                None => has(t, n, helvetica_obj()),
            }
            &&& match app.image {
                None => form == m && has(t, form, form_obj(app, n, None)),
                Some(b) => image_of(b@) matches Ok(img) && match img.smask {
                    Some(a) => form == m + 2 && has(
                        t,
                        m,
                        image_obj(img.width, img.height, "DeviceGray"@, "FlateDecode"@, a, None),
                    ) && has(
                        t,
                        m + 1,
                        image_obj(img.width, img.height, img.color_space, img.filter, img.data, Some(fresh(m))),
                    ) && has(t, form, form_obj(app, n, Some(m + 1))),
                    None => form == m + 1 && has(
                        t,
                        m,
                        image_obj(img.width, img.height, img.color_space, img.filter, img.data, None),
                    ) && has(t, form, form_obj(app, n, Some(m))),
                },
            }
            &&& next == form + 1
            &&& forall|y: Item| s.contains(y) ==> #[trigger] t.contains(y)
        },
{
    let (s1, n1) = font_added(s, n, app.font)->Ok_0;
    let (s2, n2, img) = image_added(s1, n1, app.image)->Ok_0;
    match app.font {
        Some(f) => {
            let h = font_header(f@)->Ok_0;
            let a = add_fresh(s, n, font_obj(f@, h.units_per_em, fresh(n + 1)));
            let b = add_fresh(a, n + 1, descriptor_obj(h, fresh(n + 2)));
            lemma_added(s, n, font_obj(f@, h.units_per_em, fresh(n + 1)));
            lemma_added(a, n + 1, descriptor_obj(h, fresh(n + 2)));
            lemma_added(b, n + 2, fontfile_obj(f@));
        },
        None => {
            lemma_added(s, n, helvetica_obj());
        },
    }
    if let Some(b) = app.image {
        let i = image_of(b@)->Ok_0;
        match i.smask {
            Some(m) => {
                let mask = image_obj(i.width, i.height, "DeviceGray"@, "FlateDecode"@, m, None);
                lemma_added(s1, n1, mask);
                lemma_added(
                    add_fresh(s1, n1, mask),
                    n1 + 1,
                    image_obj(i.width, i.height, i.color_space, i.filter, i.data, Some(fresh(n1))),
                );
            },
            None => {
                lemma_added(s1, n1, image_obj(i.width, i.height, i.color_space, i.filter, i.data, None));
            },
        }
    }
    lemma_added(s2, n2, form_obj(app, n, img));
}

} // verus!
