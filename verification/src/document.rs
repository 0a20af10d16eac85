use vstd::prelude::*;

use crate::atlas::packer_views;
use crate::descriptor::{decimal, json_atlas, push_decimal, txt_atlas};
use crate::packer::{Packer, PackerStateView};

verus! {

/// Where the atlas files say they were generated.
pub const GENERATOR: &'static str = "https://git.luflow.net/hfsoulz/flow-texpack.git";

/// The last component of a path: what follows its last `/` (the whole path
/// when it has none).
pub open spec fn last_component(path: Seq<char>) -> Seq<char>
    decreases path.len(),
{
    if path.len() == 0 {
        Seq::empty()
    } else if path.last() == '/' {
        Seq::empty()
    } else {
        last_component(path.drop_last()).push(path.last())
    }
}

/// The file name (without extension) of atlas image `i` when the output
/// path is `output`: the last component of `output` followed by `i`.
pub open spec fn atlas_name(output: Seq<char>, i: int) -> Seq<char> {
    last_component(output) + decimal(i as nat)
}

/// The last component of `path`.
pub fn last_path_component(path: &str) -> (r: String)
    ensures
        r@ == last_component(path@),
{
    let len = path.unicode_len();
    let mut j = len;
    proof {
        assert(path@.take(len as int) =~= path@);
        assert(path@.subrange(len as int, len as int) =~= Seq::<char>::empty());
        assert(path@ + Seq::<char>::empty() =~= path@);
    }
    while j > 0 && path.get_char(j - 1) != '/'
        invariant
            len == path@.len(),
            j <= len,
            last_component(path@) == last_component(path@.take(j as int)) + path@.subrange(
                j as int,
                len as int,
            ),
        decreases j,
    {
        proof {
            let s = path@.take(j as int);
            assert(s.drop_last() =~= path@.take(j - 1));
            assert(path@.subrange(j - 1, len as int) =~= seq![s.last()] + path@.subrange(
                j as int,
                len as int,
            ));
            assert(last_component(s) == last_component(path@.take(j - 1)).push(s.last()));
            assert(last_component(path@.take(j - 1)).push(s.last()) + path@.subrange(
                j as int,
                len as int,
            ) =~= last_component(path@.take(j - 1)) + path@.subrange(j - 1, len as int));
        }
        j = j - 1;
    }
    proof {
        if j > 0 {
            assert(path@.take(j as int).last() == '/');
        }
        assert(last_component(path@.take(j as int)) =~= Seq::<char>::empty());
        assert(last_component(path@) =~= path@.subrange(j as int, len as int));
    }
    String::from_str(path.substring_char(j, len))
}

/// The name of atlas image `i` when the output path is `output`.
pub fn atlas_file_name(output: &str, i: usize) -> (r: String)
    ensures
        r@ == atlas_name(output@, i as int),
{
    let mut name = last_path_component(output);
    push_decimal(&mut name, i as u64);
    name
}

/// The JSON descriptions of the first `n` atlases, separated by `,\n`.
pub open spec fn json_atlases(
    ss: Seq<PackerStateView>,
    output: Seq<char>,
    image_ext: Seq<char>,
    n: int,
) -> Seq<char>
    decreases n,
{
    if n <= 0 {
        Seq::empty()
    } else {
        json_atlases(ss, output, image_ext, n - 1) + (if n > 1 {
            ",\n"@
        } else {
            Seq::empty()
        }) + json_atlas(ss[n - 1], atlas_name(output, n - 1), image_ext)
    }
}

/// The JSON descriptor of the atlases `ss`: an info part with their number
/// and the generator, then the description of each.
pub open spec fn json_document(ss: Seq<PackerStateView>, output: Seq<char>, image_ext: Seq<char>) -> Seq<char> {
    json_document_head(ss.len()) + json_atlases(ss, output, image_ext, ss.len() as int)
        + "\n\t\t]\n"@ + "\t}\n"@ + "}\n"@
}

/// The JSON descriptor up to the opening of its atlas list.
#[verifier::opaque]
pub open spec fn json_document_head(n: nat) -> Seq<char> {
    "{\n"@ + "\t\"ImageAtlas\":\n"@ + "\t{\n"@ + "\t\t\"info\":\n"@ + "\t\t{\n"@
        + "\t\t\t\"numberOfAtlasImages\": "@ + decimal(n) + ",\n"@ + "\t\t\t\"generatedWith\": \""@
        + GENERATOR@ + "\"\n"@ + "\t\t},\n"@ + "\t\t\"AtlasImage\":\n"@ + "\t\t[\n"@
}

/// Appends the JSON descriptor up to the opening of its atlas list.
#[verifier::rlimit(100)]
fn push_json_document_head(out: &mut String, n: usize)
    ensures
        final(out)@ == old(out)@ + json_document_head(n as nat),
{
    out.append("{\n");
    out.append("\t\"ImageAtlas\":\n");
    out.append("\t{\n");
    out.append("\t\t\"info\":\n");
    out.append("\t\t{\n");
    out.append("\t\t\t\"numberOfAtlasImages\": ");
    push_decimal(out, n as u64);
    out.append(",\n");
    out.append("\t\t\t\"generatedWith\": \"");
    out.append(GENERATOR);
    out.append("\"\n");
    out.append("\t\t},\n");
    out.append("\t\t\"AtlasImage\":\n");
    out.append("\t\t[\n");
    reveal(json_document_head);
    assert(final(out)@ =~= old(out)@ + json_document_head(n as nat));
}

/// The JSON descriptor of `packers`; atlas image `i` is named after the
/// last component of `output` followed by `i`, with the extension
/// `image_ext`.
pub fn atlas_json(packers: &Vec<Packer>, output: &str, image_ext: &str) -> (r: String)
    ensures
        r@ == json_document(packer_views(packers@), output@, image_ext@),
{
    let ghost ss = packer_views(packers@);
    let mut out = String::new();
    push_json_document_head(&mut out, packers.len());
    let ghost head = out@;
    let mut i: usize = 0;
    while i < packers.len()
        invariant
            ss == packer_views(packers@),
            i <= packers@.len(),
            out@ == head + json_atlases(ss, output@, image_ext@, i as int),
        decreases packers@.len() - i,
    {
        if i > 0 {
            out.append(",\n");
        }
        let name = atlas_file_name(output, i);
        packers[i].save_json(&mut out, name.as_str(), image_ext);
        i = i + 1;
        proof {
            assert(ss[i - 1] == packers@[i - 1].state@);
            assert(out@ =~= head + json_atlases(ss, output@, image_ext@, i as int));
        }
    }
    out.append("\n\t\t]\n");
    out.append("\t}\n");
    out.append("}\n");
    assert(out@ =~= json_document(ss, output@, image_ext@));
    out
}

/// The comment that opens a plain-text descriptor: the generator and a
/// description of the format.
#[verifier::opaque]
pub open spec fn txt_header() -> Seq<char> {
    "/*\n"@
        + "\t ************************************************\n"@
        + "\t * Generated with: "@ + GENERATOR@ + "\n"@
        + "\t ************************************************\n"@
        + "\n"@
        + "\t ************************************************\n"@
        + "\t * Format description:\n"@
        + "\t ************************************************\n"@
        + "\t [info]\n"@
        + "\t numberOfAtlasImages,generatedWith\n"@
        + "\n"@
        + "\t [AtlasImage (repeated numberOfAtlasImages)]\n"@
        + "\t atlasImageName,numberOfImages,atlasImageWidth,atlasImageHeight,generateMipMaps\n"@
        + "\n"@
        + "\t [Image (repeated numberOfImages)]\n"@
        + "\t name,x,y,w,h,trimmed,rotated,fx,fy,fw,fh (NOTE: fx,fy,fw,fh valid if trimmed==1)\n"@
        + "\n"@
        + "\t Text format example:\n"@
        + "\t [info]\n"@
        + "\t [AtlasImage]\n"@
        + "\t [Image]\n"@
        + "\t [Image]\n"@
        + "\t ...\n"@
        + "\t [AtlasImage]\n"@
        + "\t [Image]\n"@
        + "\t [Image]\n"@
        + "\t ...\n"@
        + "*/@\n"@
}

/// Appends the comment that opens a plain-text descriptor.
#[verifier::rlimit(100)]
pub fn write_txt_header(out: &mut String)
    ensures
        final(out)@ == old(out)@ + txt_header(),
{
    out.append("/*\n");
    out.append("\t ************************************************\n");
    out.append("\t * Generated with: ");
    out.append(GENERATOR);
    out.append("\n");
    out.append("\t ************************************************\n");
    out.append("\n");
    out.append("\t ************************************************\n");
    out.append("\t * Format description:\n");
    out.append("\t ************************************************\n");
    out.append("\t [info]\n");
    out.append("\t numberOfAtlasImages,generatedWith\n");
    out.append("\n");
    out.append("\t [AtlasImage (repeated numberOfAtlasImages)]\n");
    out.append("\t atlasImageName,numberOfImages,atlasImageWidth,atlasImageHeight,generateMipMaps\n");
    out.append("\n");
    out.append("\t [Image (repeated numberOfImages)]\n");
    out.append("\t name,x,y,w,h,trimmed,rotated,fx,fy,fw,fh (NOTE: fx,fy,fw,fh valid if trimmed==1)\n");
    out.append("\n");
    out.append("\t Text format example:\n");
    out.append("\t [info]\n");
    out.append("\t [AtlasImage]\n");
    out.append("\t [Image]\n");
    out.append("\t [Image]\n");
    out.append("\t ...\n");
    out.append("\t [AtlasImage]\n");
    out.append("\t [Image]\n");
    out.append("\t [Image]\n");
    out.append("\t ...\n");
    out.append("*/@\n");
    reveal(txt_header);
    assert(final(out)@ =~= old(out)@ + txt_header());
}

/// The plain-text descriptions of the first `n` atlases.
pub open spec fn txt_atlases(
    ss: Seq<PackerStateView>,
    output: Seq<char>,
    image_ext: Seq<char>,
    n: int,
) -> Seq<char>
    decreases n,
{
    if n <= 0 {
        Seq::empty()
    } else {
        txt_atlases(ss, output, image_ext, n - 1) + txt_atlas(
            ss[n - 1],
            atlas_name(output, n - 1),
            image_ext,
        )
    }
}

/// The plain-text descriptor of the atlases `ss`: the header comment when
/// asked for, a line with their number and the generator, then the
/// description of each.
pub open spec fn txt_document(
    ss: Seq<PackerStateView>,
    output: Seq<char>,
    image_ext: Seq<char>,
    with_header: bool,
) -> Seq<char> {
    (if with_header {
        txt_header()
    } else {
        Seq::empty()
    }) + decimal(ss.len()) + ","@ + GENERATOR@ + "\n"@ + txt_atlases(
        ss,
        output,
        image_ext,
        ss.len() as int,
    )
}

/// The plain-text descriptor of `packers`, with the header comment when
/// `with_header`; atlas image `i` is named after the last component of
/// `output` followed by `i`, with the extension `image_ext`.
pub fn atlas_txt(packers: &Vec<Packer>, output: &str, image_ext: &str, with_header: bool) -> (r:
    String)
    ensures
        r@ == txt_document(packer_views(packers@), output@, image_ext@, with_header),
{
    let ghost ss = packer_views(packers@);
    let mut out = String::new();
    if with_header {
        write_txt_header(&mut out);
    }
    push_decimal(&mut out, packers.len() as u64);
    out.append(",");
    out.append(GENERATOR);
    out.append("\n");
    let ghost head = out@;
    let mut i: usize = 0;
    while i < packers.len()
        invariant
            ss == packer_views(packers@),
            i <= packers@.len(),
            out@ == head + txt_atlases(ss, output@, image_ext@, i as int),
        decreases packers@.len() - i,
    {
        let name = atlas_file_name(output, i);
        packers[i].save_txt(&mut out, name.as_str(), image_ext);
        i = i + 1;
        proof {
            assert(ss[i - 1] == packers@[i - 1].state@);
            assert(out@ =~= head + txt_atlases(ss, output@, image_ext@, i as int));
        }
    }
    assert(out@ =~= txt_document(ss, output@, image_ext@, with_header));
    out
}

} // verus!
