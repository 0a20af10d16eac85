use vstd::prelude::*;
use vstd::seq_lib::lemma_flatten_concat;

use crate::packer::{Packer, PackerStateView, Point};
use crate::render::drawn_count;
use crate::texture::{Texture, TextureView};

verus! {

/// The decimal digit `d` (0 to 9) as text.
pub open spec fn digit_text(d: int) -> Seq<char> {
    if d == 0 {
        "0"@
    } else if d == 1 {
        "1"@
    } else if d == 2 {
        "2"@
    } else if d == 3 {
        "3"@
    } else if d == 4 {
        "4"@
    } else if d == 5 {
        "5"@
    } else if d == 6 {
        "6"@
    } else if d == 7 {
        "7"@
    } else if d == 8 {
        "8"@
    } else {
        "9"@
    }
}

/// `n` in decimal, without leading zeros.
pub open spec fn decimal(n: nat) -> Seq<char>
    decreases n,
{
    if n < 10 {
        digit_text(n as int)
    } else {
        decimal(n / 10) + digit_text((n % 10) as int)
    }
}

/// `v` in decimal, with a leading minus sign when negative.
pub open spec fn signed_decimal(v: int) -> Seq<char> {
    if v < 0 {
        "-"@ + decimal((-v) as nat)
    } else {
        decimal(v as nat)
    }
}

/// A flag as `0` or `1`.
pub open spec fn flag_text(b: bool) -> Seq<char> {
    if b {
        decimal(1)
    } else {
        decimal(0)
    }
}

/// Appends the decimal digit `d`.
fn push_digit(out: &mut String, d: u64)
    requires
        d < 10,
    ensures
        final(out)@ == old(out)@ + digit_text(d as int),
{
    if d == 0 {
        out.append("0");
    } else if d == 1 {
        out.append("1");
    } else if d == 2 {
        out.append("2");
    } else if d == 3 {
        out.append("3");
    } else if d == 4 {
        out.append("4");
    } else if d == 5 {
        out.append("5");
    } else if d == 6 {
        out.append("6");
    } else if d == 7 {
        out.append("7");
    } else if d == 8 {
        out.append("8");
    } else {
        out.append("9");
    }
}

/// Appends `n` in decimal.
pub fn push_decimal(out: &mut String, n: u64)
    ensures
        final(out)@ == old(out)@ + decimal(n as nat),
    decreases n,
{
    if n >= 10 {
        push_decimal(out, n / 10);
        push_digit(out, n % 10);
        assert(final(out)@ =~= old(out)@ + decimal(n as nat));
    } else {
        push_digit(out, n);
    }
}

/// Appends `v` in decimal, with a leading minus sign when negative.
pub fn push_signed_decimal(out: &mut String, v: i64)
    ensures
        final(out)@ == old(out)@ + signed_decimal(v as int),
{
    if v < 0 {
        out.append("-");
        let m: u64 = if v == i64::MIN {
            9223372036854775808u64
        } else {
            (-v) as u64
        };
        push_decimal(out, m);
        assert(final(out)@ =~= old(out)@ + signed_decimal(v as int));
    } else {
        push_decimal(out, v as u64);
    }
}

/// Appends a flag as `0` or `1`.
pub fn push_flag(out: &mut String, b: bool)
    ensures
        final(out)@ == old(out)@ + flag_text(b),
{
    if b {
        push_decimal(out, 1);
    } else {
        push_decimal(out, 0);
    }
}

/// The JSON object that describes one packed texture: its name, position,
/// size, whether it was trimmed or turned, and its frame.
pub open spec fn json_image(t: TextureView, p: Point) -> Seq<char> {
    json_image_head(t, p) + json_image_tail(t, p)
}

/// The first part of `json_image`: name, position and size.
#[verifier::opaque]
pub open spec fn json_image_head(t: TextureView, p: Point) -> Seq<char> {
    "\t\t\t\t\t{\n"@ + "\t\t\t\t\t\t\"n\": \""@ + t.file_name + "\", "@ + "\"x\": "@ + signed_decimal(
        p.x as int,
    ) + ", "@ + "\"y\": "@ + signed_decimal(p.y as int) + ", "@ + "\"w\": "@ + decimal(
        t.width as nat,
    ) + ", "@ + "\"h\": "@ + decimal(t.height as nat) + ", "@
}

/// The second part of `json_image`: the trimmed and rotated flags and the frame.
#[verifier::opaque]
pub open spec fn json_image_tail(t: TextureView, p: Point) -> Seq<char> {
    "\"trimmed\": "@ + flag_text(t.trimmed()) + ", "@ + "\"rotated\": "@ + flag_text(p.rotate)
        + ", "@ + "\"fx\": "@ + signed_decimal(t.frame_x as int) + ", "@ + "\"fy\": "@
        + signed_decimal(t.frame_y as int) + ", "@ + "\"fw\": "@ + decimal(t.frame_w as nat) + ", "@
        + "\"fh\": "@ + decimal(t.frame_h as nat) + "\n"@ + "\t\t\t\t\t}"@
}

/// The JSON objects of the first `n` packed textures, separated by `,` and a line break.
pub open spec fn json_images(ts: Seq<TextureView>, ps: Seq<Point>, n: int) -> Seq<char>
    decreases n,
{
    if n <= 0 {
        Seq::empty()
    } else {
        json_images(ts, ps, n - 1) + (if n - 1 > 0 {
            ",\n"@
        } else {
            Seq::empty()
        }) + json_image(ts[n - 1], ps[n - 1])
    }
}

/// The JSON object that describes one atlas image: its file name and
/// extension, the number of textures, its size, the mipmap hint, and one
/// object per packed texture.
pub open spec fn json_atlas(s: PackerStateView, file_name: Seq<char>, image_ext: Seq<char>) -> Seq<char> {
    json_atlas_head(s, file_name, image_ext) + json_images(s.textures, s.points, drawn_count(s))
        + "\n\t\t\t\t]\n"@ + "\t\t\t}"@
}

/// The first part of `json_atlas`, up to the opening of the texture list.
#[verifier::opaque]
pub open spec fn json_atlas_head(s: PackerStateView, file_name: Seq<char>, image_ext: Seq<char>) -> Seq<char> {
    "\t\t\t{\n"@ + "\t\t\t\t\"n\": \""@ + file_name + "."@ + image_ext + "\",\n"@
        + "\t\t\t\t\"numImages\": "@ + decimal(s.textures.len()) + ",\n"@ + "\t\t\t\t\"width\": "@
        + decimal(s.width as nat) + ",\n"@ + "\t\t\t\t\"height\": "@ + decimal(s.height as nat)
        + ",\n"@ + "\t\t\t\t\"generateMipMaps\": "@ + flag_text(s.generate_mipmaps) + ",\n"@
        + "\t\t\t\t\"img\":\n"@ + "\t\t\t\t[\n"@
}

/// The text line that describes one packed texture.
pub open spec fn txt_image(t: TextureView, p: Point) -> Seq<char> {
    txt_image_head(t, p) + txt_image_tail(t, p)
}

/// The first part of `txt_image`: name, position and size.
#[verifier::opaque]
pub open spec fn txt_image_head(t: TextureView, p: Point) -> Seq<char> {
    t.file_name + ","@ + signed_decimal(p.x as int) + ","@ + signed_decimal(p.y as int) + ","@
        + decimal(t.width as nat) + ","@ + decimal(t.height as nat) + ","@
}

/// The second part of `txt_image`: the trimmed and rotated flags and the frame.
#[verifier::opaque]
pub open spec fn txt_image_tail(t: TextureView, p: Point) -> Seq<char> {
    flag_text(t.trimmed()) + ","@ + flag_text(p.rotate) + ","@ + signed_decimal(t.frame_x as int)
        + ","@ + signed_decimal(t.frame_y as int) + ","@ + decimal(t.frame_w as nat) + ","@
        + decimal(t.frame_h as nat) + "\n"@
}

/// The text lines of the first `n` packed textures.
pub open spec fn txt_images(ts: Seq<TextureView>, ps: Seq<Point>, n: int) -> Seq<char>
    decreases n,
{
    if n <= 0 {
        Seq::empty()
    } else {
        txt_images(ts, ps, n - 1) + txt_image(ts[n - 1], ps[n - 1])
    }
}

/// The text that describes one atlas image: a line with its file name and
/// extension, the number of textures, its size and the mipmap hint, then one
/// line per packed texture.
pub open spec fn txt_atlas(s: PackerStateView, file_name: Seq<char>, image_ext: Seq<char>) -> Seq<char> {
    txt_atlas_head(s, file_name, image_ext) + txt_images(s.textures, s.points, drawn_count(s))
}

/// The first line of `txt_atlas`.
#[verifier::opaque]
pub open spec fn txt_atlas_head(s: PackerStateView, file_name: Seq<char>, image_ext: Seq<char>) -> Seq<char> {
    file_name + "."@ + image_ext + ","@ + decimal(s.textures.len()) + ","@ + decimal(
        s.width as nat,
    ) + ","@ + decimal(s.height as nat) + ","@ + flag_text(s.generate_mipmaps) + "\n"@
}

/// Appends the JSON object of one packed texture.
fn push_json_image(out: &mut String, t: &Texture, p: Point)
    ensures
        final(out)@ == old(out)@ + json_image(t@, p),
{
    push_json_image_head(out, t, p);
    push_json_image_tail(out, t, p);
    assert(final(out)@ =~= old(out)@ + json_image(t@, p));
}

/// Appends the first part of the JSON object of one packed texture.
#[verifier::rlimit(100)]
fn push_json_image_head(out: &mut String, t: &Texture, p: Point)
    ensures
        final(out)@ == old(out)@ + json_image_head(t@, p),
{
    out.append("\t\t\t\t\t{\n");
    out.append("\t\t\t\t\t\t\"n\": \"");
    out.append(t.file_name.as_str());
    out.append("\", ");
    out.append("\"x\": ");
    push_signed_decimal(out, p.x as i64);
    out.append(", ");
    out.append("\"y\": ");
    push_signed_decimal(out, p.y as i64);
    out.append(", ");
    out.append("\"w\": ");
    push_decimal(out, t.width as u64);
    out.append(", ");
    out.append("\"h\": ");
    push_decimal(out, t.height as u64);
    out.append(", ");
    reveal(json_image_head);
    assert(final(out)@ =~= old(out)@ + json_image_head(t@, p));
}

/// Appends the second part of the JSON object of one packed texture.
#[verifier::rlimit(100)]
fn push_json_image_tail(out: &mut String, t: &Texture, p: Point)
    ensures
        final(out)@ == old(out)@ + json_image_tail(t@, p),
{
    out.append("\"trimmed\": ");
    push_flag(out, t.frame_w != t.width || t.frame_h != t.height);
    out.append(", ");
    out.append("\"rotated\": ");
    push_flag(out, p.rotate);
    out.append(", ");
    out.append("\"fx\": ");
    push_signed_decimal(out, t.frame_x as i64);
    out.append(", ");
    out.append("\"fy\": ");
    push_signed_decimal(out, t.frame_y as i64);
    out.append(", ");
    out.append("\"fw\": ");
    push_decimal(out, t.frame_w as u64);
    out.append(", ");
    out.append("\"fh\": ");
    push_decimal(out, t.frame_h as u64);
    out.append("\n");
    out.append("\t\t\t\t\t}");
    reveal(json_image_tail);
    assert(final(out)@ =~= old(out)@ + json_image_tail(t@, p));
}

/// Appends the text line of one packed texture.
fn push_txt_image(out: &mut String, t: &Texture, p: Point)
    ensures
        final(out)@ == old(out)@ + txt_image(t@, p),
{
    push_txt_image_head(out, t, p);
    push_txt_image_tail(out, t, p);
    assert(final(out)@ =~= old(out)@ + txt_image(t@, p));
}

/// Appends the first part of the text line of one packed texture.
#[verifier::rlimit(100)]
fn push_txt_image_head(out: &mut String, t: &Texture, p: Point)
    ensures
        final(out)@ == old(out)@ + txt_image_head(t@, p),
{
    out.append(t.file_name.as_str());
    out.append(",");
    push_signed_decimal(out, p.x as i64);
    out.append(",");
    push_signed_decimal(out, p.y as i64);
    out.append(",");
    push_decimal(out, t.width as u64);
    out.append(",");
    push_decimal(out, t.height as u64);
    out.append(",");
    reveal(txt_image_head);
    assert(final(out)@ =~= old(out)@ + txt_image_head(t@, p));
}

/// Appends the second part of the text line of one packed texture.
#[verifier::rlimit(100)]
fn push_txt_image_tail(out: &mut String, t: &Texture, p: Point)
    ensures
        final(out)@ == old(out)@ + txt_image_tail(t@, p),
{
    push_flag(out, t.frame_w != t.width || t.frame_h != t.height);
    out.append(",");
    push_flag(out, p.rotate);
    out.append(",");
    push_signed_decimal(out, t.frame_x as i64);
    out.append(",");
    push_signed_decimal(out, t.frame_y as i64);
    out.append(",");
    push_decimal(out, t.frame_w as u64);
    out.append(",");
    push_decimal(out, t.frame_h as u64);
    out.append("\n");
    reveal(txt_image_tail);
    assert(final(out)@ =~= old(out)@ + txt_image_tail(t@, p));
}

impl Packer {
    /// Appends the JSON description of this atlas image up to the opening of
    /// its texture list.
    #[verifier::rlimit(100)]
    fn push_json_head(&self, out: &mut String, file_name: &str, image_ext: &str)
        ensures
            final(out)@ == old(out)@ + json_atlas_head(self.state@, file_name@, image_ext@),
    {
        out.append("\t\t\t{\n");
        out.append("\t\t\t\t\"n\": \"");
        out.append(file_name);
        out.append(".");
        out.append(image_ext);
        out.append("\",\n");
        out.append("\t\t\t\t\"numImages\": ");
        push_decimal(out, self.state.textures.len() as u64);
        out.append(",\n");
        out.append("\t\t\t\t\"width\": ");
        push_decimal(out, self.state.width as u64);
        out.append(",\n");
        out.append("\t\t\t\t\"height\": ");
        push_decimal(out, self.state.height as u64);
        out.append(",\n");
        out.append("\t\t\t\t\"generateMipMaps\": ");
        push_flag(out, self.state.generate_mipmaps);
        out.append(",\n");
        out.append("\t\t\t\t\"img\":\n");
        out.append("\t\t\t\t[\n");
        reveal(json_atlas_head);
        assert(final(out)@ =~= old(out)@ + json_atlas_head(self.state@, file_name@, image_ext@));
    }

    /// Appends the JSON description of this atlas image to `out`; the image
    /// file is `file_name` with the extension `image_ext`.
    pub fn save_json(&self, out: &mut String, file_name: &str, image_ext: &str)
        ensures
            final(out)@ == old(out)@ + json_atlas(self.state@, file_name@, image_ext@),
    {
        let ghost s = self.state@;
        self.push_json_head(out, file_name, image_ext);
        let ghost head = out@;
        let n: usize = if self.state.textures.len() < self.state.points.len() {
            self.state.textures.len()
        } else {
            self.state.points.len()
        };
        let mut i: usize = 0;
        while i < n
            invariant
                s == self.state@,
                n == drawn_count(s),
                n <= self.state.textures@.len(),
                n <= self.state.points@.len(),
                i <= n,
                out@ == head + json_images(s.textures, s.points, i as int),
            decreases n - i,
        {
            let texture = &self.state.textures[i];
            let point = self.state.points[i];
            proof {
                assert(s.textures[i as int] == texture@);
            }
            if i > 0 {
                out.append(",\n");
            }
            push_json_image(out, texture, point);
            i = i + 1;
            assert(out@ =~= head + json_images(s.textures, s.points, i as int));
        }
        out.append("\n\t\t\t\t]\n");
        out.append("\t\t\t}");
        assert(final(out)@ =~= old(out)@ + json_atlas(s, file_name@, image_ext@));
    }

    /// Appends the first line of the plain-text description of this atlas image.
    #[verifier::rlimit(100)]
    fn push_txt_head(&self, out: &mut String, file_name: &str, image_ext: &str)
        ensures
            final(out)@ == old(out)@ + txt_atlas_head(self.state@, file_name@, image_ext@),
    {
        out.append(file_name);
        out.append(".");
        out.append(image_ext);
        out.append(",");
        push_decimal(out, self.state.textures.len() as u64);
        out.append(",");
        push_decimal(out, self.state.width as u64);
        out.append(",");
        push_decimal(out, self.state.height as u64);
        out.append(",");
        push_flag(out, self.state.generate_mipmaps);
        out.append("\n");
        reveal(txt_atlas_head);
        assert(final(out)@ =~= old(out)@ + txt_atlas_head(self.state@, file_name@, image_ext@));
    }

    /// Appends the plain-text description of this atlas image to `out`; the
    /// image file is `file_name` with the extension `image_ext`.
    pub fn save_txt(&self, out: &mut String, file_name: &str, image_ext: &str)
        ensures
            final(out)@ == old(out)@ + txt_atlas(self.state@, file_name@, image_ext@),
    {
        let ghost s = self.state@;
        self.push_txt_head(out, file_name, image_ext);
        let ghost head = out@;
        let n: usize = if self.state.textures.len() < self.state.points.len() {
            self.state.textures.len()
        } else {
            self.state.points.len()
        };
        let mut i: usize = 0;
        while i < n
            invariant
                s == self.state@,
                n == drawn_count(s),
                n <= self.state.textures@.len(),
                n <= self.state.points@.len(),
                i <= n,
                out@ == head + txt_images(s.textures, s.points, i as int),
            decreases n - i,
        {
            let texture = &self.state.textures[i];
            let point = self.state.points[i];
            proof {
                assert(s.textures[i as int] == texture@);
            }
            push_txt_image(out, texture, point);
            i = i + 1;
            assert(out@ =~= head + txt_images(s.textures, s.points, i as int));
        }
        assert(final(out)@ =~= old(out)@ + txt_atlas(s, file_name@, image_ext@));
    }
}

/// `entry` stands in `text` from index `i` on, and a `,` or a line break
/// follows it.
pub open spec fn entry_at(text: Seq<char>, entry: Seq<char>, i: int) -> bool {
    &&& 0 <= i
    &&& i + entry.len() < text.len()
    &&& text.subrange(i, i + entry.len()) == entry
    &&& (text[i + entry.len()] == ',' || text[i + entry.len()] == '\n')
}

/// The JSON text `text` holds the member `name` with the value `value`: the
/// quoted name, a colon, a space and the value, followed by `,` or a line
/// break.
pub open spec fn json_member(text: Seq<char>, name: Seq<char>, value: Seq<char>) -> bool {
    exists|i: int| #[trigger] entry_at(text, "\""@ + name + "\": "@ + value, i)
}

/// In text made of `ps`, the pieces `j` and `j + 1` stand together,
/// followed by the first character of piece `j + 2`.
proof fn lemma_entry_in_pieces(ps: Seq<Seq<char>>, j: int)
    requires
        0 <= j,
        j + 2 < ps.len(),
        ps[j + 2].len() > 0,
        ps[j + 2][0] == ',' || ps[j + 2][0] == '\n',
    ensures
        entry_at(ps.flatten(), ps[j] + ps[j + 1], ps.take(j).flatten().len() as int),
{
    let a = ps.take(j);
    let b = seq![ps[j], ps[j + 1]];
    let c = ps.skip(j + 2);
    assert(ps =~= a + (b + c));
    lemma_flatten_concat(a, b + c);
    lemma_flatten_concat(b, c);
    reveal_with_fuel(Seq::<_>::flatten, 3);
    assert(b.drop_first() =~= seq![ps[j + 1]]);
    assert(b.drop_first().drop_first() =~= Seq::<Seq<char>>::empty());
    assert(b.flatten() =~= ps[j] + ps[j + 1]);
    assert(c[0] == ps[j + 2]);
    assert(c.flatten() == c[0] + c.drop_first().flatten());
    let pre = a.flatten();
    let e = ps[j] + ps[j + 1];
    let post = c.flatten();
    let text = ps.flatten();
    assert(text =~= pre + (e + post));
    assert(text.subrange(pre.len() as int, (pre.len() + e.len()) as int) =~= e);
    assert(text[(pre.len() + e.len()) as int] == post[0]);
}

/// An entry stays where it is when text is added after it.
proof fn lemma_entry_append(text: Seq<char>, entry: Seq<char>, i: int, more: Seq<char>)
    requires
        entry_at(text, entry, i),
    ensures
        entry_at(text + more, entry, i),
{
    assert((text + more).subrange(i, i + entry.len()) =~= text.subrange(i, i + entry.len()));
}

/// An entry moves along when text is put before it.
proof fn lemma_entry_prepend(before: Seq<char>, text: Seq<char>, entry: Seq<char>, i: int)
    requires
        entry_at(text, entry, i),
    ensures
        entry_at(before + text, entry, before.len() + i),
{
    assert((before + text).subrange(before.len() + i, before.len() + i + entry.len())
        =~= text.subrange(i, i + entry.len()));
}

/// The end of an entry is an entry too.
proof fn lemma_entry_suffix(text: Seq<char>, lead: Seq<char>, entry: Seq<char>, i: int)
    requires
        entry_at(text, lead + entry, i),
    ensures
        entry_at(text, entry, i + lead.len()),
{
    let whole = text.subrange(i, i + (lead + entry).len());
    assert(whole == lead + entry);
    assert forall|k: int| 0 <= k < entry.len() implies #[trigger] text[i + lead.len() + k] == entry[k] by {
        assert(whole[lead.len() + k] == text[i + lead.len() + k]);
        assert((lead + entry)[lead.len() + k] == entry[k]);
    }
    assert forall|k: int| 0 <= k < entry.len() implies #[trigger] text.subrange(
        i + lead.len(),
        i + lead.len() + entry.len(),
    )[k] == entry[k] by {
        assert(text[i + lead.len() + k] == entry[k]);
    }
    assert(text.subrange(i + lead.len(), i + lead.len() + entry.len()) =~= entry);
}

/// In text made of `ps`, with more text before and after, piece `j` is the
/// key of the member `name`, piece `j + 1` its value, and piece `j + 2`
/// begins with `,` or a line break.
proof fn lemma_member_in_pieces(
    ps: Seq<Seq<char>>,
    j: int,
    name: Seq<char>,
    before: Seq<char>,
    after: Seq<char>,
)
    requires
        0 <= j,
        j + 2 < ps.len(),
        ps[j + 2].len() > 0,
        ps[j + 2][0] == ',' || ps[j + 2][0] == '\n',
        ps[j] == "\""@ + name + "\": "@,
    ensures
        json_member(before + ps.flatten() + after, name, ps[j + 1]),
{
    let e = ps[j] + ps[j + 1];
    let i = ps.take(j).flatten().len() as int;
    lemma_entry_in_pieces(ps, j);
    lemma_entry_prepend(before, ps.flatten(), e, i);
    lemma_entry_append(before + ps.flatten(), e, before.len() + i, after);
    assert(entry_at(before + ps.flatten() + after, "\""@ + name + "\": "@ + ps[j + 1], before.len() + i));
}

/// The pieces that `json_image_head` is made of.
spec fn json_image_head_pieces(t: TextureView, p: Point) -> Seq<Seq<char>> {
    Seq::empty()
        .push("\t\t\t\t\t{\n"@)
        .push("\t\t\t\t\t\t\"n\": \""@)
        .push(t.file_name)
        .push("\", "@)
        .push("\"x\": "@)
        .push(signed_decimal(p.x as int))
        .push(", "@)
        .push("\"y\": "@)
        .push(signed_decimal(p.y as int))
        .push(", "@)
        .push("\"w\": "@)
        .push(decimal(t.width as nat))
        .push(", "@)
        .push("\"h\": "@)
        .push(decimal(t.height as nat))
        .push(", "@)
}

/// The pieces that `json_image_tail` is made of.
spec fn json_image_tail_pieces(t: TextureView, p: Point) -> Seq<Seq<char>> {
    Seq::empty()
        .push("\"trimmed\": "@)
        .push(flag_text(t.trimmed()))
        .push(", "@)
        .push("\"rotated\": "@)
        .push(flag_text(p.rotate))
        .push(", "@)
        .push("\"fx\": "@)
        .push(signed_decimal(t.frame_x as int))
        .push(", "@)
        .push("\"fy\": "@)
        .push(signed_decimal(t.frame_y as int))
        .push(", "@)
        .push("\"fw\": "@)
        .push(decimal(t.frame_w as nat))
        .push(", "@)
        .push("\"fh\": "@)
        .push(decimal(t.frame_h as nat))
        .push("\n"@)
        .push("\t\t\t\t\t}"@)
}

/// `json_image_head` is the text of its pieces, one after the other.
proof fn lemma_json_image_head_pieces(t: TextureView, p: Point)
    ensures
        json_image_head(t, p) == json_image_head_pieces(t, p).flatten(),
{
    broadcast use Seq::lemma_flatten_push;

    reveal(json_image_head);
    assert(Seq::<Seq<char>>::empty().flatten() =~= Seq::<char>::empty());
    assert(Seq::<char>::empty() + "\t\t\t\t\t{\n"@ =~= "\t\t\t\t\t{\n"@);
}

/// `json_image_tail` is the text of its pieces, one after the other.
proof fn lemma_json_image_tail_pieces(t: TextureView, p: Point)
    ensures
        json_image_tail(t, p) == json_image_tail_pieces(t, p).flatten(),
{
    broadcast use Seq::lemma_flatten_push;

    reveal(json_image_tail);
    assert(Seq::<Seq<char>>::empty().flatten() =~= Seq::<char>::empty());
    assert(Seq::<char>::empty() + "\"trimmed\": "@ =~= "\"trimmed\": "@);
}

/// Law: the JSON object of a packed texture gives, member by member, its
/// position, its size, whether it was trimmed and turned, and its frame.
pub proof fn lemma_json_image_members(t: TextureView, p: Point)
    ensures
        json_member(json_image(t, p), "x"@, signed_decimal(p.x as int)),
        json_member(json_image(t, p), "y"@, signed_decimal(p.y as int)),
        json_member(json_image(t, p), "w"@, decimal(t.width as nat)),
        json_member(json_image(t, p), "h"@, decimal(t.height as nat)),
        json_member(json_image(t, p), "trimmed"@, flag_text(t.trimmed())),
        json_member(json_image(t, p), "rotated"@, flag_text(p.rotate)),
        json_member(json_image(t, p), "fx"@, signed_decimal(t.frame_x as int)),
        json_member(json_image(t, p), "fy"@, signed_decimal(t.frame_y as int)),
        json_member(json_image(t, p), "fw"@, decimal(t.frame_w as nat)),
        json_member(json_image(t, p), "fh"@, decimal(t.frame_h as nat)),
{
    broadcast use Seq::lemma_flatten_push;
    reveal(json_image_head);
    reveal(json_image_tail);
    reveal_strlit(", ");
    reveal_strlit("\n");
    reveal_strlit("\"");
    reveal_strlit("\": ");
    reveal_strlit("x");
    reveal_strlit("\"x\": ");
    assert("\"x\": "@ =~= "\""@ + "x"@ + "\": "@);
    reveal_strlit("y");
    reveal_strlit("\"y\": ");
    assert("\"y\": "@ =~= "\""@ + "y"@ + "\": "@);
    reveal_strlit("w");
    reveal_strlit("\"w\": ");
    assert("\"w\": "@ =~= "\""@ + "w"@ + "\": "@);
    reveal_strlit("h");
    reveal_strlit("\"h\": ");
    assert("\"h\": "@ =~= "\""@ + "h"@ + "\": "@);
    reveal_strlit("trimmed");
    reveal_strlit("\"trimmed\": ");
    assert("\"trimmed\": "@ =~= "\""@ + "trimmed"@ + "\": "@);
    reveal_strlit("rotated");
    reveal_strlit("\"rotated\": ");
    assert("\"rotated\": "@ =~= "\""@ + "rotated"@ + "\": "@);
    reveal_strlit("fx");
    reveal_strlit("\"fx\": ");
    assert("\"fx\": "@ =~= "\""@ + "fx"@ + "\": "@);
    reveal_strlit("fy");
    reveal_strlit("\"fy\": ");
    assert("\"fy\": "@ =~= "\""@ + "fy"@ + "\": "@);
    reveal_strlit("fw");
    reveal_strlit("\"fw\": ");
    assert("\"fw\": "@ =~= "\""@ + "fw"@ + "\": "@);
    reveal_strlit("fh");
    reveal_strlit("\"fh\": ");
    assert("\"fh\": "@ =~= "\""@ + "fh"@ + "\": "@);
    let head = json_image_head(t, p);
    let tail = json_image_tail(t, p);
    let hp = json_image_head_pieces(t, p);
    let tp = json_image_tail_pieces(t, p);
    lemma_json_image_head_pieces(t, p);
    lemma_json_image_tail_pieces(t, p);
    assert(json_image(t, p) =~= Seq::<char>::empty() + hp.flatten() + tail);
    assert(json_image(t, p) =~= head + tp.flatten() + Seq::<char>::empty());
    lemma_member_in_pieces(hp, 4, "x"@, Seq::empty(), tail);
    lemma_member_in_pieces(hp, 7, "y"@, Seq::empty(), tail);
    lemma_member_in_pieces(hp, 10, "w"@, Seq::empty(), tail);
    lemma_member_in_pieces(hp, 13, "h"@, Seq::empty(), tail);
    lemma_member_in_pieces(tp, 0, "trimmed"@, head, Seq::empty());
    lemma_member_in_pieces(tp, 3, "rotated"@, head, Seq::empty());
    lemma_member_in_pieces(tp, 6, "fx"@, head, Seq::empty());
    lemma_member_in_pieces(tp, 9, "fy"@, head, Seq::empty());
    lemma_member_in_pieces(tp, 12, "fw"@, head, Seq::empty());
    lemma_member_in_pieces(tp, 15, "fh"@, head, Seq::empty());
}


/// In text made of `ps`, with more text before and after, piece `j` is the
/// key of the member `name` after four tabs, piece `j + 1` its value, and
/// piece `j + 2` begins with `,` or a line break.
proof fn lemma_indented_member_in_pieces(
    ps: Seq<Seq<char>>,
    j: int,
    name: Seq<char>,
    before: Seq<char>,
    after: Seq<char>,
)
    requires
        0 <= j,
        j + 2 < ps.len(),
        ps[j + 2].len() > 0,
        ps[j + 2][0] == ',' || ps[j + 2][0] == '\n',
        ps[j] == "\t\t\t\t"@ + ("\""@ + name + "\": "@),
    ensures
        json_member(before + ps.flatten() + after, name, ps[j + 1]),
{
    let e = ps[j] + ps[j + 1];
    let i = ps.take(j).flatten().len() as int;
    let text = before + ps.flatten() + after;
    lemma_entry_in_pieces(ps, j);
    lemma_entry_prepend(before, ps.flatten(), e, i);
    lemma_entry_append(before + ps.flatten(), e, before.len() + i, after);
    assert(e =~= "\t\t\t\t"@ + ("\""@ + name + "\": "@ + ps[j + 1]));
    lemma_entry_suffix(text, "\t\t\t\t"@, "\""@ + name + "\": "@ + ps[j + 1], before.len() + i);
}

/// The pieces that `json_atlas_head` is made of.
spec fn json_atlas_head_pieces(s: PackerStateView, file_name: Seq<char>, image_ext: Seq<char>) -> Seq<Seq<char>> {
    Seq::empty()
        .push("\t\t\t{\n"@)
        .push("\t\t\t\t\"n\": \""@)
        .push(file_name)
        .push("."@)
        .push(image_ext)
        .push("\",\n"@)
        .push("\t\t\t\t\"numImages\": "@)
        .push(decimal(s.textures.len()))
        .push(",\n"@)
        .push("\t\t\t\t\"width\": "@)
        .push(decimal(s.width as nat))
        .push(",\n"@)
        .push("\t\t\t\t\"height\": "@)
        .push(decimal(s.height as nat))
        .push(",\n"@)
        .push("\t\t\t\t\"generateMipMaps\": "@)
        .push(flag_text(s.generate_mipmaps))
        .push(",\n"@)
        .push("\t\t\t\t\"img\":\n"@)
        .push("\t\t\t\t[\n"@)
}

/// `json_atlas_head` is the text of its pieces, one after the other.
proof fn lemma_json_atlas_head_pieces(s: PackerStateView, file_name: Seq<char>, image_ext: Seq<char>)
    ensures
        json_atlas_head(s, file_name, image_ext) == json_atlas_head_pieces(s, file_name, image_ext).flatten(),
{
    broadcast use Seq::lemma_flatten_push;

    reveal(json_atlas_head);
    assert(Seq::<Seq<char>>::empty().flatten() =~= Seq::<char>::empty());
    assert(Seq::<char>::empty() + "\t\t\t{\n"@ =~= "\t\t\t{\n"@);
}

/// Law: the JSON object of an atlas image gives, member by member, the
/// number of its textures, its width, its height and the mipmap hint.
pub proof fn lemma_json_atlas_members(s: PackerStateView, file_name: Seq<char>, image_ext: Seq<char>)
    ensures
        json_member(json_atlas(s, file_name, image_ext), "numImages"@, decimal(s.textures.len())),
        json_member(json_atlas(s, file_name, image_ext), "width"@, decimal(s.width as nat)),
        json_member(json_atlas(s, file_name, image_ext), "height"@, decimal(s.height as nat)),
        json_member(
            json_atlas(s, file_name, image_ext),
            "generateMipMaps"@,
            flag_text(s.generate_mipmaps),
        ),
{
    reveal_strlit(",\n");
    reveal_strlit("\t\t\t\t");
    reveal_strlit("\"");
    reveal_strlit("\": ");
    reveal_strlit("numImages");
    reveal_strlit("\t\t\t\t\"numImages\": ");
    assert("\t\t\t\t\"numImages\": "@ =~= "\t\t\t\t"@ + ("\""@ + "numImages"@ + "\": "@));
    reveal_strlit("width");
    reveal_strlit("\t\t\t\t\"width\": ");
    assert("\t\t\t\t\"width\": "@ =~= "\t\t\t\t"@ + ("\""@ + "width"@ + "\": "@));
    reveal_strlit("height");
    reveal_strlit("\t\t\t\t\"height\": ");
    assert("\t\t\t\t\"height\": "@ =~= "\t\t\t\t"@ + ("\""@ + "height"@ + "\": "@));
    reveal_strlit("generateMipMaps");
    reveal_strlit("\t\t\t\t\"generateMipMaps\": ");
    assert("\t\t\t\t\"generateMipMaps\": "@ =~= "\t\t\t\t"@ + ("\""@ + "generateMipMaps"@ + "\": "@));
    let hp = json_atlas_head_pieces(s, file_name, image_ext);
    let rest = json_images(s.textures, s.points, drawn_count(s)) + "\n\t\t\t\t]\n"@ + "\t\t\t}"@;
    lemma_json_atlas_head_pieces(s, file_name, image_ext);
    assert(json_atlas(s, file_name, image_ext) =~= Seq::<char>::empty() + hp.flatten() + rest);
    lemma_indented_member_in_pieces(hp, 6, "numImages"@, Seq::empty(), rest);
    lemma_indented_member_in_pieces(hp, 9, "width"@, Seq::empty(), rest);
    lemma_indented_member_in_pieces(hp, 12, "height"@, Seq::empty(), rest);
    lemma_indented_member_in_pieces(hp, 15, "generateMipMaps"@, Seq::empty(), rest);
}


/// The index of the first `c` in `s`, or the length of `s` when it has none.
pub open spec fn first_index_of(s: Seq<char>, c: char) -> nat
    decreases s.len(),
{
    if s.len() == 0 {
        0
    } else if s[0] == c {
        0
    } else {
        1 + first_index_of(s.drop_first(), c)
    }
}

/// The first line of `text`, without its line break.
pub open spec fn first_line(text: Seq<char>) -> Seq<char> {
    text.take(first_index_of(text, '\n') as int)
}

/// Field `k` (counted from 0) of the comma-separated `line`; empty past the
/// last field.
pub open spec fn csv_field(line: Seq<char>, k: nat) -> Seq<char>
    decreases k,
{
    let n = first_index_of(line, ',');
    if k == 0 {
        line.take(n as int)
    } else if n >= line.len() {
        Seq::empty()
    } else {
        csv_field(line.skip((n + 1) as int), (k - 1) as nat)
    }
}

/// `s` holds neither a `,` nor a line break, so it can stand as one field
/// of a comma-separated line.
pub open spec fn plain_field(s: Seq<char>) -> bool {
    forall|i: int| 0 <= i < s.len() ==> #[trigger] s[i] != ',' && s[i] != '\n'
}

/// The first `c` in `a + b`, where `a` holds no `c` and `b` is empty or
/// begins with `c`, is at the end of `a`.
proof fn lemma_first_index_of(a: Seq<char>, b: Seq<char>, c: char)
    requires
        forall|i: int| 0 <= i < a.len() ==> #[trigger] a[i] != c,
        b.len() == 0 || b[0] == c,
    ensures
        first_index_of(a + b, c) == a.len(),
    decreases a.len(),
{
    if a.len() == 0 {
        assert(a + b =~= b);
    } else {
        assert((a + b)[0] == a[0]);
        assert((a + b).drop_first() =~= a.drop_first() + b);
        assert forall|i: int| 0 <= i < a.drop_first().len() implies #[trigger] a.drop_first()[i] != c by {
            assert(a.drop_first()[i] == a[i + 1]);
        }
        lemma_first_index_of(a.drop_first(), b, c);
    }
}

/// The fields of `a`, a comma and `rest`: `a` first, then those of `rest`.
proof fn lemma_csv_cons(a: Seq<char>, rest: Seq<char>, k: nat)
    requires
        plain_field(a),
    ensures
        csv_field(a + (","@ + rest), k) == (if k == 0 {
            a
        } else {
            csv_field(rest, (k - 1) as nat)
        }),
{
    reveal_strlit(",");
    let line = a + (","@ + rest);
    assert forall|i: int| 0 <= i < a.len() implies #[trigger] a[i] != ',' by {}
    lemma_first_index_of(a, ","@ + rest, ',');
    assert(line.take(a.len() as int) =~= a);
    assert(line.skip((a.len() + 1) as int) =~= rest);
}

/// A line without a comma is one field.
proof fn lemma_csv_last(a: Seq<char>)
    requires
        plain_field(a),
    ensures
        csv_field(a, 0) == a,
{
    assert forall|i: int| 0 <= i < a.len() implies #[trigger] a[i] != ',' by {}
    lemma_first_index_of(a, Seq::empty(), ',');
    assert(a + Seq::<char>::empty() =~= a);
    assert(a.take(a.len() as int) =~= a);
}

/// Two plain fields side by side make one.
proof fn lemma_plain_concat(a: Seq<char>, b: Seq<char>)
    requires
        plain_field(a),
        plain_field(b),
    ensures
        plain_field(a + b),
{
    assert forall|i: int| 0 <= i < (a + b).len() implies #[trigger] (a + b)[i] != ',' && (a + b)[i] != '\n' by {
        if i >= a.len() {
            assert((a + b)[i] == b[i - a.len()]);
        }
    }
}

/// `s` holds no line break.
spec fn unbroken(s: Seq<char>) -> bool {
    forall|i: int| 0 <= i < s.len() ==> #[trigger] s[i] != '\n'
}

/// Text without line breaks side by side has none.
proof fn lemma_unbroken_concat(a: Seq<char>, b: Seq<char>)
    requires
        unbroken(a),
        unbroken(b),
    ensures
        unbroken(a + b),
{
    assert forall|i: int| 0 <= i < (a + b).len() implies #[trigger] (a + b)[i] != '\n' by {
        if i >= a.len() {
            assert((a + b)[i] == b[i - a.len()]);
        } else {
            assert((a + b)[i] == a[i]);
        }
    }
}

/// A number in decimal is a plain field.
proof fn lemma_decimal_plain(n: nat)
    ensures
        plain_field(decimal(n)),
    decreases n,
{
    reveal_strlit("0");
    reveal_strlit("1");
    reveal_strlit("2");
    reveal_strlit("3");
    reveal_strlit("4");
    reveal_strlit("5");
    reveal_strlit("6");
    reveal_strlit("7");
    reveal_strlit("8");
    reveal_strlit("9");
    if n >= 10 {
        lemma_decimal_plain(n / 10);
        let d = digit_text((n % 10) as int);
        assert(plain_field(d));
        lemma_plain_concat(decimal(n / 10), d);
    } else {
        assert(plain_field(digit_text(n as int)));
    }
}

/// A signed number in decimal and a flag are plain fields.
proof fn lemma_number_plain(v: int, b: bool)
    ensures
        plain_field(signed_decimal(v)),
        plain_field(flag_text(b)),
{
    reveal_strlit("-");
    lemma_decimal_plain(0);
    lemma_decimal_plain(1);
    if v < 0 {
        lemma_decimal_plain((-v) as nat);
        lemma_plain_concat("-"@, decimal((-v) as nat));
    } else {
        lemma_decimal_plain(v as nat);
    }
}

/// The first line of the text that describes an atlas image, without its
/// line break.
spec fn txt_atlas_row(s: PackerStateView, file_name: Seq<char>, image_ext: Seq<char>) -> Seq<char> {
    file_name + "."@ + image_ext + (","@ + (decimal(s.textures.len()) + (","@ + (decimal(s.width as nat) + (","@ + (decimal(s.height as nat) + (","@ + flag_text(s.generate_mipmaps))))))))
}

/// The text that describes an atlas image is its row, a line break and the
/// lines of its textures.
proof fn lemma_txt_atlas_row(s: PackerStateView, file_name: Seq<char>, image_ext: Seq<char>)
    ensures
        txt_atlas(s, file_name, image_ext) == txt_atlas_row(s, file_name, image_ext) + ("\n"@
            + txt_images(s.textures, s.points, drawn_count(s))),
{
    reveal(txt_atlas_head);
    let q8 = flag_text(s.generate_mipmaps);
    let q7 = ","@ + q8;
    let q6 = decimal(s.height as nat) + q7;
    let q5 = ","@ + q6;
    let q4 = decimal(s.width as nat) + q5;
    let q3 = ","@ + q4;
    let q2 = decimal(s.textures.len()) + q3;
    let q1 = ","@ + q2;
    let q0 = file_name + "."@ + image_ext + q1;
    let l1 = file_name + "."@ + image_ext;
    let l2 = l1 + ","@;
    let l3 = l2 + decimal(s.textures.len());
    let l4 = l3 + ","@;
    let l5 = l4 + decimal(s.width as nat);
    let l6 = l5 + ","@;
    let l7 = l6 + decimal(s.height as nat);
    let l8 = l7 + ","@;
    let l9 = l8 + flag_text(s.generate_mipmaps);
    lemma_concat_assoc(l1, ","@, q2);
    lemma_concat_assoc(l2, decimal(s.textures.len()), q3);
    lemma_concat_assoc(l3, ","@, q4);
    lemma_concat_assoc(l4, decimal(s.width as nat), q5);
    lemma_concat_assoc(l5, ","@, q6);
    lemma_concat_assoc(l6, decimal(s.height as nat), q7);
    lemma_concat_assoc(l7, ","@, q8);
    assert(q0 == txt_atlas_row(s, file_name, image_ext));
    assert(txt_atlas_head(s, file_name, image_ext) == l9 + "\n"@);
    lemma_concat_assoc(q0, "\n"@, txt_images(s.textures, s.points, drawn_count(s)));
}

/// The row of an atlas image holds no line break (when the file name and the
/// extension are plain fields).
proof fn lemma_txt_atlas_row_unbroken(s: PackerStateView, file_name: Seq<char>, image_ext: Seq<char>)
    requires
        plain_field(file_name),
        plain_field(image_ext),
    ensures
        unbroken(txt_atlas_row(s, file_name, image_ext)),
{
    reveal_strlit(".");
    reveal_strlit(",");
    lemma_plain_concat(file_name, "."@);
    lemma_plain_concat(file_name + "."@, image_ext);
    lemma_decimal_plain(s.textures.len());
    lemma_decimal_plain(s.width as nat);
    lemma_decimal_plain(s.height as nat);
    lemma_number_plain(0, s.generate_mipmaps);
    let r4 = flag_text(s.generate_mipmaps);
    let r3 = decimal(s.height as nat) + (","@ + r4);
    let r2 = decimal(s.width as nat) + (","@ + r3);
    let r1 = decimal(s.textures.len()) + (","@ + r2);
    lemma_unbroken_concat(","@, r4);
    lemma_unbroken_concat(decimal(s.height as nat), ","@ + r4);
    lemma_unbroken_concat(","@, r3);
    lemma_unbroken_concat(decimal(s.width as nat), ","@ + r3);
    lemma_unbroken_concat(","@, r2);
    lemma_unbroken_concat(decimal(s.textures.len()), ","@ + r2);
    lemma_unbroken_concat(","@, r1);
    lemma_unbroken_concat(file_name + "."@ + image_ext, ","@ + r1);
}

/// What comes before `b` in `a + b` is `a`.
proof fn lemma_take_concat(a: Seq<char>, b: Seq<char>)
    ensures
        (a + b).take(a.len() as int) == a,
{
    assert((a + b).take(a.len() as int) =~= a);
}

/// Law: the first line of the text that describes an atlas image holds,
/// field by field, the image file name with its extension, the number of
/// textures, the width, the height and the mipmap hint (when the file name
/// and the extension are themselves plain fields).
pub proof fn lemma_txt_atlas_fields(s: PackerStateView, file_name: Seq<char>, image_ext: Seq<char>)
    requires
        plain_field(file_name),
        plain_field(image_ext),
    ensures
        csv_field(first_line(txt_atlas(s, file_name, image_ext)), 0) == file_name + "."@ + image_ext,
        csv_field(first_line(txt_atlas(s, file_name, image_ext)), 1) == decimal(s.textures.len()),
        csv_field(first_line(txt_atlas(s, file_name, image_ext)), 2) == decimal(s.width as nat),
        csv_field(first_line(txt_atlas(s, file_name, image_ext)), 3) == decimal(s.height as nat),
        csv_field(first_line(txt_atlas(s, file_name, image_ext)), 4) == flag_text(s.generate_mipmaps),
{
    reveal_strlit(".");
    reveal_strlit("\n");
    lemma_plain_concat(file_name, "."@);
    lemma_plain_concat(file_name + "."@, image_ext);
    lemma_decimal_plain(s.textures.len());
    lemma_decimal_plain(s.width as nat);
    lemma_decimal_plain(s.height as nat);
    lemma_number_plain(0, s.generate_mipmaps);
    let r4 = flag_text(s.generate_mipmaps);
    let r3 = decimal(s.height as nat) + (","@ + r4);
    let r2 = decimal(s.width as nat) + (","@ + r3);
    let r1 = decimal(s.textures.len()) + (","@ + r2);
    let r0 = file_name + "."@ + image_ext + (","@ + r1);
    let rest = "\n"@ + txt_images(s.textures, s.points, drawn_count(s));
    lemma_txt_atlas_row(s, file_name, image_ext);
    lemma_txt_atlas_row_unbroken(s, file_name, image_ext);
    lemma_first_index_of(r0, rest, '\n');
    lemma_take_concat(r0, rest);
    lemma_csv_cons(file_name + "."@ + image_ext, r1, 0);
    lemma_csv_cons(file_name + "."@ + image_ext, r1, 1);
    lemma_csv_cons(decimal(s.textures.len()), r2, 0);
    lemma_csv_cons(file_name + "."@ + image_ext, r1, 2);
    lemma_csv_cons(decimal(s.textures.len()), r2, 1);
    lemma_csv_cons(decimal(s.width as nat), r3, 0);
    lemma_csv_cons(file_name + "."@ + image_ext, r1, 3);
    lemma_csv_cons(decimal(s.textures.len()), r2, 2);
    lemma_csv_cons(decimal(s.width as nat), r3, 1);
    lemma_csv_cons(decimal(s.height as nat), r4, 0);
    lemma_csv_cons(file_name + "."@ + image_ext, r1, 4);
    lemma_csv_cons(decimal(s.textures.len()), r2, 3);
    lemma_csv_cons(decimal(s.width as nat), r3, 2);
    lemma_csv_cons(decimal(s.height as nat), r4, 1);
    lemma_csv_last(flag_text(s.generate_mipmaps));
}

/// Concatenation is associative.
proof fn lemma_concat_assoc(a: Seq<char>, b: Seq<char>, c: Seq<char>)
    ensures
        a + (b + c) == (a + b) + c,
{
    assert(a + (b + c) =~= (a + b) + c);
}

/// The line that describes a packed texture, without its line break.
spec fn txt_image_row(t: TextureView, p: Point) -> Seq<char> {
    t.file_name + (","@ + (signed_decimal(p.x as int) + (","@ + (signed_decimal(p.y as int) + (","@ + (decimal(t.width as nat) + (","@ + (decimal(t.height as nat) + (","@ + (flag_text(t.trimmed()) + (","@ + (flag_text(p.rotate) + (","@ + (signed_decimal(t.frame_x as int) + (","@ + (signed_decimal(t.frame_y as int) + (","@ + (decimal(t.frame_w as nat) + (","@ + (decimal(t.frame_h as nat)))))))))))))))))))))
}

/// The text line of a packed texture is its row and a line break.
proof fn lemma_txt_image_row(t: TextureView, p: Point)
    ensures
        txt_image(t, p) == txt_image_row(t, p) + "\n"@,
{
    reveal(txt_image_head);
    reveal(txt_image_tail);
    reveal_strlit(",");
    reveal_strlit("\n");
    let q20 = decimal(t.frame_h as nat);
    let q19 = ","@ + q20;
    let q18 = decimal(t.frame_w as nat) + q19;
    let q17 = ","@ + q18;
    let q16 = signed_decimal(t.frame_y as int) + q17;
    let q15 = ","@ + q16;
    let q14 = signed_decimal(t.frame_x as int) + q15;
    let q13 = ","@ + q14;
    let q12 = flag_text(p.rotate) + q13;
    let q11 = ","@ + q12;
    let q10 = flag_text(t.trimmed()) + q11;
    let q9 = ","@ + q10;
    let q8 = decimal(t.height as nat) + q9;
    let q7 = ","@ + q8;
    let q6 = decimal(t.width as nat) + q7;
    let q5 = ","@ + q6;
    let q4 = signed_decimal(p.y as int) + q5;
    let q3 = ","@ + q4;
    let q2 = signed_decimal(p.x as int) + q3;
    let q1 = ","@ + q2;
    let q0 = t.file_name + q1;
    let l1 = t.file_name;
    let l2 = l1 + ","@;
    let l3 = l2 + signed_decimal(p.x as int);
    let l4 = l3 + ","@;
    let l5 = l4 + signed_decimal(p.y as int);
    let l6 = l5 + ","@;
    let l7 = l6 + decimal(t.width as nat);
    let l8 = l7 + ","@;
    let l9 = l8 + decimal(t.height as nat);
    let l10 = l9 + ","@;
    let l11 = l10 + flag_text(t.trimmed());
    let l12 = l11 + ","@;
    let l13 = l12 + flag_text(p.rotate);
    let l14 = l13 + ","@;
    let l15 = l14 + signed_decimal(t.frame_x as int);
    let l16 = l15 + ","@;
    let l17 = l16 + signed_decimal(t.frame_y as int);
    let l18 = l17 + ","@;
    let l19 = l18 + decimal(t.frame_w as nat);
    let l20 = l19 + ","@;
    let l21 = l20 + decimal(t.frame_h as nat);
    let l22 = l21 + "\n"@;
    lemma_concat_assoc(l1, ","@, q2);
    lemma_concat_assoc(l2, signed_decimal(p.x as int), q3);
    lemma_concat_assoc(l3, ","@, q4);
    lemma_concat_assoc(l4, signed_decimal(p.y as int), q5);
    lemma_concat_assoc(l5, ","@, q6);
    lemma_concat_assoc(l6, decimal(t.width as nat), q7);
    lemma_concat_assoc(l7, ","@, q8);
    lemma_concat_assoc(l8, decimal(t.height as nat), q9);
    lemma_concat_assoc(l9, ","@, q10);
    lemma_concat_assoc(l10, flag_text(t.trimmed()), q11);
    lemma_concat_assoc(l11, ","@, q12);
    lemma_concat_assoc(l12, flag_text(p.rotate), q13);
    lemma_concat_assoc(l13, ","@, q14);
    lemma_concat_assoc(l14, signed_decimal(t.frame_x as int), q15);
    lemma_concat_assoc(l15, ","@, q16);
    lemma_concat_assoc(l16, signed_decimal(t.frame_y as int), q17);
    lemma_concat_assoc(l17, ","@, q18);
    lemma_concat_assoc(l18, decimal(t.frame_w as nat), q19);
    lemma_concat_assoc(l19, ","@, q20);
    assert(q0 == txt_image_row(t, p));
    let m11 = flag_text(t.trimmed());
    let m12 = m11 + ","@;
    let m13 = m12 + flag_text(p.rotate);
    let m14 = m13 + ","@;
    let m15 = m14 + signed_decimal(t.frame_x as int);
    let m16 = m15 + ","@;
    let m17 = m16 + signed_decimal(t.frame_y as int);
    let m18 = m17 + ","@;
    let m19 = m18 + decimal(t.frame_w as nat);
    let m20 = m19 + ","@;
    let m21 = m20 + decimal(t.frame_h as nat);
    let m22 = m21 + "\n"@;
    assert(txt_image_head(t, p) == l10);
    assert(txt_image_tail(t, p) == m22);
    lemma_concat_assoc(l10, m11, ","@);
    lemma_concat_assoc(l10, m12, flag_text(p.rotate));
    lemma_concat_assoc(l10, m13, ","@);
    lemma_concat_assoc(l10, m14, signed_decimal(t.frame_x as int));
    lemma_concat_assoc(l10, m15, ","@);
    lemma_concat_assoc(l10, m16, signed_decimal(t.frame_y as int));
    lemma_concat_assoc(l10, m17, ","@);
    lemma_concat_assoc(l10, m18, decimal(t.frame_w as nat));
    lemma_concat_assoc(l10, m19, ","@);
    lemma_concat_assoc(l10, m20, decimal(t.frame_h as nat));
    lemma_concat_assoc(l10, m21, "\n"@);
    assert(txt_image(t, p) == l22);
}

/// The row of a packed texture holds no line break (when its file name is a
/// plain field).
proof fn lemma_txt_image_row_unbroken(t: TextureView, p: Point)
    requires
        plain_field(t.file_name),
    ensures
        unbroken(txt_image_row(t, p)),
{
    reveal_strlit(",");
    reveal_strlit("\n");
    lemma_decimal_plain(t.width as nat);
    lemma_decimal_plain(t.height as nat);
    lemma_decimal_plain(t.frame_w as nat);
    lemma_decimal_plain(t.frame_h as nat);
    lemma_number_plain(p.x as int, t.trimmed());
    lemma_number_plain(p.y as int, p.rotate);
    lemma_number_plain(t.frame_x as int, p.rotate);
    lemma_number_plain(t.frame_y as int, p.rotate);
    let r10 = decimal(t.frame_h as nat);
    let r9 = decimal(t.frame_w as nat) + (","@ + r10);
    let r8 = signed_decimal(t.frame_y as int) + (","@ + r9);
    let r7 = signed_decimal(t.frame_x as int) + (","@ + r8);
    let r6 = flag_text(p.rotate) + (","@ + r7);
    let r5 = flag_text(t.trimmed()) + (","@ + r6);
    let r4 = decimal(t.height as nat) + (","@ + r5);
    let r3 = decimal(t.width as nat) + (","@ + r4);
    let r2 = signed_decimal(p.y as int) + (","@ + r3);
    let r1 = signed_decimal(p.x as int) + (","@ + r2);
    let r0 = t.file_name + (","@ + r1);
    lemma_unbroken_concat(","@, r10);
    lemma_unbroken_concat(decimal(t.frame_w as nat), ","@ + r10);
    lemma_unbroken_concat(","@, r9);
    lemma_unbroken_concat(signed_decimal(t.frame_y as int), ","@ + r9);
    lemma_unbroken_concat(","@, r8);
    lemma_unbroken_concat(signed_decimal(t.frame_x as int), ","@ + r8);
    lemma_unbroken_concat(","@, r7);
    lemma_unbroken_concat(flag_text(p.rotate), ","@ + r7);
    lemma_unbroken_concat(","@, r6);
    lemma_unbroken_concat(flag_text(t.trimmed()), ","@ + r6);
    lemma_unbroken_concat(","@, r5);
    lemma_unbroken_concat(decimal(t.height as nat), ","@ + r5);
    lemma_unbroken_concat(","@, r4);
    lemma_unbroken_concat(decimal(t.width as nat), ","@ + r4);
    lemma_unbroken_concat(","@, r3);
    lemma_unbroken_concat(signed_decimal(p.y as int), ","@ + r3);
    lemma_unbroken_concat(","@, r2);
    lemma_unbroken_concat(signed_decimal(p.x as int), ","@ + r2);
    lemma_unbroken_concat(","@, r1);
    lemma_unbroken_concat(t.file_name, ","@ + r1);
}

/// Law: the line that describes a packed texture holds, field by field, its
/// file name, its position, its size, whether it was trimmed and turned, and
/// its frame (when the file name is itself a plain field).
pub proof fn lemma_txt_image_fields(t: TextureView, p: Point)
    requires
        plain_field(t.file_name),
    ensures
        csv_field(first_line(txt_image(t, p)), 0) == t.file_name,
        csv_field(first_line(txt_image(t, p)), 1) == signed_decimal(p.x as int),
        csv_field(first_line(txt_image(t, p)), 2) == signed_decimal(p.y as int),
        csv_field(first_line(txt_image(t, p)), 3) == decimal(t.width as nat),
        csv_field(first_line(txt_image(t, p)), 4) == decimal(t.height as nat),
        csv_field(first_line(txt_image(t, p)), 5) == flag_text(t.trimmed()),
        csv_field(first_line(txt_image(t, p)), 6) == flag_text(p.rotate),
        csv_field(first_line(txt_image(t, p)), 7) == signed_decimal(t.frame_x as int),
        csv_field(first_line(txt_image(t, p)), 8) == signed_decimal(t.frame_y as int),
        csv_field(first_line(txt_image(t, p)), 9) == decimal(t.frame_w as nat),
        csv_field(first_line(txt_image(t, p)), 10) == decimal(t.frame_h as nat),
{
    reveal_strlit(",");
    reveal_strlit("\n");
    lemma_decimal_plain(t.width as nat);
    lemma_decimal_plain(t.height as nat);
    lemma_decimal_plain(t.frame_w as nat);
    lemma_decimal_plain(t.frame_h as nat);
    lemma_number_plain(p.x as int, t.trimmed());
    lemma_number_plain(p.y as int, p.rotate);
    lemma_number_plain(t.frame_x as int, p.rotate);
    lemma_number_plain(t.frame_y as int, p.rotate);
    let r10 = decimal(t.frame_h as nat);
    let r9 = decimal(t.frame_w as nat) + (","@ + r10);
    let r8 = signed_decimal(t.frame_y as int) + (","@ + r9);
    let r7 = signed_decimal(t.frame_x as int) + (","@ + r8);
    let r6 = flag_text(p.rotate) + (","@ + r7);
    let r5 = flag_text(t.trimmed()) + (","@ + r6);
    let r4 = decimal(t.height as nat) + (","@ + r5);
    let r3 = decimal(t.width as nat) + (","@ + r4);
    let r2 = signed_decimal(p.y as int) + (","@ + r3);
    let r1 = signed_decimal(p.x as int) + (","@ + r2);
    let r0 = t.file_name + (","@ + r1);
    lemma_txt_image_row(t, p);
    lemma_txt_image_row_unbroken(t, p);
    lemma_first_index_of(r0, "\n"@, '\n');
    lemma_take_concat(r0, "\n"@);
    lemma_csv_cons(t.file_name, r1, 0);
    lemma_csv_cons(t.file_name, r1, 1);
    lemma_csv_cons(signed_decimal(p.x as int), r2, 0);
    lemma_csv_cons(t.file_name, r1, 2);
    lemma_csv_cons(signed_decimal(p.x as int), r2, 1);
    lemma_csv_cons(signed_decimal(p.y as int), r3, 0);
    lemma_csv_cons(t.file_name, r1, 3);
    lemma_csv_cons(signed_decimal(p.x as int), r2, 2);
    lemma_csv_cons(signed_decimal(p.y as int), r3, 1);
    lemma_csv_cons(decimal(t.width as nat), r4, 0);
    lemma_csv_cons(t.file_name, r1, 4);
    lemma_csv_cons(signed_decimal(p.x as int), r2, 3);
    lemma_csv_cons(signed_decimal(p.y as int), r3, 2);
    lemma_csv_cons(decimal(t.width as nat), r4, 1);
    lemma_csv_cons(decimal(t.height as nat), r5, 0);
    lemma_csv_cons(t.file_name, r1, 5);
    lemma_csv_cons(signed_decimal(p.x as int), r2, 4);
    lemma_csv_cons(signed_decimal(p.y as int), r3, 3);
    lemma_csv_cons(decimal(t.width as nat), r4, 2);
    lemma_csv_cons(decimal(t.height as nat), r5, 1);
    lemma_csv_cons(flag_text(t.trimmed()), r6, 0);
    lemma_csv_cons(t.file_name, r1, 6);
    lemma_csv_cons(signed_decimal(p.x as int), r2, 5);
    lemma_csv_cons(signed_decimal(p.y as int), r3, 4);
    lemma_csv_cons(decimal(t.width as nat), r4, 3);
    lemma_csv_cons(decimal(t.height as nat), r5, 2);
    lemma_csv_cons(flag_text(t.trimmed()), r6, 1);
    lemma_csv_cons(flag_text(p.rotate), r7, 0);
    lemma_csv_cons(t.file_name, r1, 7);
    lemma_csv_cons(signed_decimal(p.x as int), r2, 6);
    lemma_csv_cons(signed_decimal(p.y as int), r3, 5);
    lemma_csv_cons(decimal(t.width as nat), r4, 4);
    lemma_csv_cons(decimal(t.height as nat), r5, 3);
    lemma_csv_cons(flag_text(t.trimmed()), r6, 2);
    lemma_csv_cons(flag_text(p.rotate), r7, 1);
    lemma_csv_cons(signed_decimal(t.frame_x as int), r8, 0);
    lemma_csv_cons(t.file_name, r1, 8);
    lemma_csv_cons(signed_decimal(p.x as int), r2, 7);
    lemma_csv_cons(signed_decimal(p.y as int), r3, 6);
    lemma_csv_cons(decimal(t.width as nat), r4, 5);
    lemma_csv_cons(decimal(t.height as nat), r5, 4);
    lemma_csv_cons(flag_text(t.trimmed()), r6, 3);
    lemma_csv_cons(flag_text(p.rotate), r7, 2);
    lemma_csv_cons(signed_decimal(t.frame_x as int), r8, 1);
    lemma_csv_cons(signed_decimal(t.frame_y as int), r9, 0);
    lemma_csv_cons(t.file_name, r1, 9);
    lemma_csv_cons(signed_decimal(p.x as int), r2, 8);
    lemma_csv_cons(signed_decimal(p.y as int), r3, 7);
    lemma_csv_cons(decimal(t.width as nat), r4, 6);
    lemma_csv_cons(decimal(t.height as nat), r5, 5);
    lemma_csv_cons(flag_text(t.trimmed()), r6, 4);
    lemma_csv_cons(flag_text(p.rotate), r7, 3);
    lemma_csv_cons(signed_decimal(t.frame_x as int), r8, 2);
    lemma_csv_cons(signed_decimal(t.frame_y as int), r9, 1);
    lemma_csv_cons(decimal(t.frame_w as nat), r10, 0);
    lemma_csv_cons(t.file_name, r1, 10);
    lemma_csv_cons(signed_decimal(p.x as int), r2, 9);
    lemma_csv_cons(signed_decimal(p.y as int), r3, 8);
    lemma_csv_cons(decimal(t.width as nat), r4, 7);
    lemma_csv_cons(decimal(t.height as nat), r5, 6);
    lemma_csv_cons(flag_text(t.trimmed()), r6, 5);
    lemma_csv_cons(flag_text(p.rotate), r7, 4);
    lemma_csv_cons(signed_decimal(t.frame_x as int), r8, 3);
    lemma_csv_cons(signed_decimal(t.frame_y as int), r9, 2);
    lemma_csv_cons(decimal(t.frame_w as nat), r10, 1);
    lemma_csv_last(decimal(t.frame_h as nat));
}

} // verus!
