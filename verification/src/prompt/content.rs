//! The blocks of a prompt, as text and images.

use crate::text;
use vstd::prelude::*;
use vstd::string::*;

verus! {

/// What a resource that came with a prompt holds.
#[derive(Debug, Clone, PartialEq, Eq)]
pub enum ResourceContents {
    Text(String),
    Blob,
    /// A kind that is not known.
    Other,
}

/// A block of a prompt.
#[derive(Debug, Clone, PartialEq, Eq)]
pub enum ContentBlock {
    Text(String),
    /// An image, in base64.
    Image { data: String, mime_type: String },
    Audio,
    ResourceLink { name: String, uri: String },
    Resource(ResourceContents),
    /// A kind that is not known.
    Other,
}

/// What a block adds to the text.
pub open spec fn block_text(block: ContentBlock) -> Seq<char> {
    match block {
        ContentBlock::Text(t) => t@,
        ContentBlock::Image { data: _, mime_type: _ } =>
            "\n[image jointe — analyse et décris son contenu]\n"@,
        ContentBlock::Audio => "[audio non pris en charge en v1]"@,
        ContentBlock::ResourceLink { name: _, uri } => uri@
            + "\n\n[ressource référencée — contenu non inclus, l'utilisateur la parcourt lui-même]"@,
        ContentBlock::Resource(ResourceContents::Text(t)) => t@,
        ContentBlock::Resource(ResourceContents::Blob) =>
            "[ressource binaire non prise en charge en v1]"@,
        ContentBlock::Resource(ResourceContents::Other) =>
            "[ressource non prise en charge en v1]"@,
        ContentBlock::Other => "[bloc de contenu non pris en charge en v1]"@,
    }
}

/// What the blocks say, one after the other, each with a line end.
pub open spec fn blocks_text(blocks: Seq<ContentBlock>) -> Seq<char>
    decreases blocks.len(),
{
    if blocks.len() == 0 {
        Seq::empty()
    } else {
        (blocks_text(blocks.drop_last()) + block_text(blocks.last())).push('\n')
    }
}

/// The images among the blocks, each with its type.
pub open spec fn blocks_images(blocks: Seq<ContentBlock>) -> Seq<(Seq<char>, Seq<char>)>
    decreases blocks.len(),
{
    if blocks.len() == 0 {
        Seq::empty()
    } else {
        let before = blocks_images(blocks.drop_last());
        match blocks.last() {
            ContentBlock::Image { data, mime_type } => before.push((data@, mime_type@)),
            _ => before,
        }
    }
}

pub open spec fn images_view(images: Seq<(String, String)>) -> Seq<(Seq<char>, Seq<char>)> {
    Seq::new(images.len(), |i: int| (images[i].0@, images[i].1@))
}

fn push_block(out: &mut String, block: &ContentBlock)
    ensures
        final(out)@ == (old(out)@ + block_text(*block)).push('\n'),
{
    match block {
        ContentBlock::Text(t) => out.append(t.as_str()),
        ContentBlock::Image { data: _, mime_type: _ } => out.append(
            "\n[image jointe — analyse et décris son contenu]\n",
        ),
        ContentBlock::Audio => out.append("[audio non pris en charge en v1]"),
        ContentBlock::ResourceLink { name: _, uri } => {
            out.append(uri.as_str());
            out.append(
                "\n\n[ressource référencée — contenu non inclus, l'utilisateur la parcourt lui-même]",
            );
            proof {
                assert(out@ =~= old(out)@ + block_text(*block));
            }
        },
        ContentBlock::Resource(ResourceContents::Text(t)) => out.append(t.as_str()),
        ContentBlock::Resource(ResourceContents::Blob) => out.append(
            "[ressource binaire non prise en charge en v1]",
        ),
        ContentBlock::Resource(ResourceContents::Other) => out.append(
            "[ressource non prise en charge en v1]",
        ),
        ContentBlock::Other => out.append("[bloc de contenu non pris en charge en v1]"),
    }
    out.push('\n');
}

/// The text of the blocks and the images among them, each as `(base64, type)`.
pub fn blocks_to_parts(blocks: &[ContentBlock]) -> (r: (String, Vec<(String, String)>))
    ensures
        r.0@ == text::trimmed_end(blocks_text(blocks@)),
        images_view(r.1@) == blocks_images(blocks@),
{
    let mut out: String = String::new();
    let mut images: Vec<(String, String)> = Vec::new();
    let mut i: usize = 0;
    proof {
        assert(images_view(images@) =~= Seq::empty());
    }
    while i < blocks.len()
        invariant
            i <= blocks@.len(),
            out@ == blocks_text(blocks@.take(i as int)),
            images_view(images@) == blocks_images(blocks@.take(i as int)),
        decreases blocks@.len() - i,
    {
        proof {
            assert(blocks@.take(i + 1).drop_last() =~= blocks@.take(i as int));
        }
        match &blocks[i] {
            ContentBlock::Image { data, mime_type } => {
                let image = (data.clone(), mime_type.clone());
                proof {
                    assert(images_view(images@.push(image)) =~= images_view(images@).push(
                        (data@, mime_type@),
                    ));
                }
                images.push(image);
            },
            _ => {},
        }
        push_block(&mut out, &blocks[i]);
        i += 1;
    }
    proof {
        assert(blocks@.take(blocks@.len() as int) =~= blocks@);
    }
    (text::trim_end(out.as_str()).to_owned(), images)
}

// ---------------------------------------------------------------------------
// Laws
// ---------------------------------------------------------------------------


/// The blocks are read one by one, in order, each ended by a line end; a text
/// and a text of a resource as they are, a link by its address.
pub proof fn law_blocks_one_by_one(a: Seq<ContentBlock>, b: Seq<ContentBlock>, block: ContentBlock)
    ensures
        blocks_text(a + b) == blocks_text(a) + blocks_text(b),
        blocks_images(a + b) == blocks_images(a) + blocks_images(b),
        block matches ContentBlock::Text(t) ==> blocks_text(seq![block]) == t@ + seq!['\n']
            && blocks_images(seq![block]).len() == 0,
        block matches ContentBlock::Resource(ResourceContents::Text(t)) ==> blocks_text(seq![block])
            == t@ + seq!['\n'] && blocks_images(seq![block]).len() == 0,
        block matches ContentBlock::ResourceLink { name, uri } ==> text::starts_with_spec(
            blocks_text(seq![block]),
            uri@,
        ) && blocks_images(seq![block]).len() == 0,
        block matches ContentBlock::Image { data, mime_type } ==> blocks_images(seq![block])
            == seq![(data@, mime_type@)],
    decreases b.len(),
{
    reveal_with_fuel(blocks_text, 2);
    reveal_with_fuel(blocks_images, 2);
    assert(seq![block].drop_last() =~= Seq::<ContentBlock>::empty());
    assert(blocks_text(seq![block]) =~= block_text(block) + seq!['\n']);
    match block {
        ContentBlock::ResourceLink { name, uri } => {
            assert(blocks_text(seq![block]).subrange(0, uri@.len() as int) =~= uri@);
        },
        _ => {},
    }
    if b.len() == 0 {
        assert(a + b =~= a);
        assert(blocks_text(a) + blocks_text(b) =~= blocks_text(a));
        assert(blocks_images(a) + blocks_images(b) =~= blocks_images(a));
    } else {
        law_blocks_one_by_one(a, b.drop_last(), block);
        assert((a + b).drop_last() =~= a + b.drop_last());
        assert((a + b).last() == b.last());
        assert(blocks_text(a + b) =~= blocks_text(a) + blocks_text(b));
        assert(blocks_images(a + b) =~= blocks_images(a) + blocks_images(b));
    }
}

/// A prompt of one text is that text, without the white space at its end.
pub proof fn law_one_text_is_the_prompt(block: ContentBlock, t: String)
    requires
        block == ContentBlock::Text(t),
        t@.len() > 0,
        !text::is_white(t@.last()),
    ensures
        text::trimmed_end(blocks_text(seq![block])) == t@,
        blocks_images(seq![block]).len() == 0,
{
    law_blocks_one_by_one(seq![block], Seq::empty(), block);
    let all = t@ + seq!['\n'];
    reveal_with_fuel(text::trimmed_end, 2);
    assert(all.drop_last() =~= t@);
    assert(all.last() == '\n');
    assert(text::is_white('\n'));
}

} // verus!
