//! What holds of what is taken out of a document, whatever the document.

use vstd::prelude::*;

use crate::extract::{
    base64_digit, base64_of, image_name, is_large_enough, lines_of, open_message,
    page_text_message, wanted_size, with_image, with_page, with_references, ExtractErrorView,
    ExtractOptions, MarkdownView, ObjectRead,
};
use crate::pdf::{
    after_images_input, after_markdown_input, after_saving_input, markdown_begins,
    ImagesInputView, ImagesRunView, ImagesStage, ImagesStepView, MarkdownInputView,
    MarkdownRunView, MarkdownStageView, MarkdownStepView, SavedFileView, SavingInputView,
    SavingRunView, SavingStepView,
};
use crate::picture::{Bitmap, Channels};
use crate::text::digits;
use crate::text_laws::{law_digits_read_as_the_number, law_stripped_back, number_read};

verus! {

/// Whether the name is that of the image with that number: the number stands in it in decimal
/// digits, between `img-` and `.png`.
pub open spec fn names_image(name: Seq<char>, number: nat) -> bool {
    exists|n: Seq<char>|
        name == "img-"@ + n + ".png"@ && #[trigger] number_read(n) == number && n.len() > 0
            && forall|i: int| 0 <= i < n.len() ==> '0' <= #[trigger] n[i] <= '9'
}

/// The file of an image has the number of the image in its name, so no two images of a document
/// share a file.
pub proof fn law_images_have_names_of_their_own(i: nat, j: nat)
    ensures
        names_image(image_name(i), i),
        i != j ==> image_name(i) != image_name(j),
        i != j ==> !names_image(image_name(i), j),
{
    lemma_image_name(i);
    lemma_image_name(j);
    if image_name(i) == image_name(j) {
        lemma_between("img-"@, digits(i), ".png"@, digits(j));
    }
    if names_image(image_name(i), j) {
        let n = choose|n: Seq<char>|
            image_name(i) == "img-"@ + n + ".png"@ && #[trigger] number_read(n) == j && n.len()
                > 0 && forall|k: int| 0 <= k < n.len() ==> '0' <= #[trigger] n[k] <= '9';
        lemma_between("img-"@, n, ".png"@, digits(i));
    }
}

/// What stands between a beginning and an end is one text.
proof fn lemma_between(a: Seq<char>, n: Seq<char>, b: Seq<char>, m: Seq<char>)
    requires
        a + n + b == a + m + b,
    ensures
        n == m,
{
    let s = a + n + b;
    let t = a + m + b;
    assert(s.len() == a.len() + n.len() + b.len());
    assert(t.len() == a.len() + m.len() + b.len());
    assert(s.subrange(a.len() as int, (a.len() + n.len()) as int) =~= n);
    assert(t.subrange(a.len() as int, (a.len() + m.len()) as int) =~= m);
}

/// The name of an image holds its number.
proof fn lemma_image_name(i: nat)
    ensures
        names_image(image_name(i), i),
        image_name(i) == "img-"@ + digits(i) + ".png"@,
        number_read(digits(i)) == i,
{
    law_digits_read_as_the_number(i);
    assert(number_read(digits(i)) == i);
}

/// The number of a digit of base 64.
pub open spec fn base64_value(c: char) -> int {
    if 'A' <= c <= 'Z' {
        c as int - 'A' as int
    } else if 'a' <= c <= 'z' {
        26 + (c as int - 'a' as int)
    } else if '0' <= c <= '9' {
        52 + (c as int - '0' as int)
    } else if c == '+' {
        62
    } else if c == '/' {
        63
    } else {
        -1
    }
}

/// The bytes that text in base 64 is read as, four characters at a time.
pub open spec fn base64_read(text: Seq<char>) -> Seq<u8>
    decreases text.len(),
{
    if text.len() < 4 {
        Seq::empty()
    } else {
        let bits = base64_value(text[0]) * 262144 + base64_value(text[1]) * 4096 + (if text[2]
            == '=' {
            0
        } else {
            base64_value(text[2])
        }) * 64 + (if text[3] == '=' {
            0
        } else {
            base64_value(text[3])
        });
        let bytes = seq![
            (bits / 65536) as u8,
            (bits / 256 % 256) as u8,
            (bits % 256) as u8,
        ];
        if text[2] == '=' {
            bytes.take(1)
        } else if text[3] == '=' {
            bytes.take(2)
        } else {
            bytes + base64_read(text.skip(4))
        }
    }
}

/// A digit of base 64 is read as what it stands for.
proof fn lemma_base64_digit(n: int)
    requires
        0 <= n < 64,
    ensures
        base64_value(base64_digit(n)) == n,
        base64_digit(n) != '=',
{
}

/// The bits of three bytes, six at a time and eight at a time.
proof fn lemma_bits(a: int, b: int, c: int)
    requires
        0 <= a < 256,
        0 <= b < 256,
        0 <= c < 256,
    ensures
        ({
            let bits = (a / 4) * 262144 + ((a % 4) * 16 + b / 16) * 4096 + ((b % 16) * 4 + c / 64)
                * 64 + c % 64;
            bits / 65536 == a && bits / 256 % 256 == b && bits % 256 == c
        }),
{
    let bits = (a / 4) * 262144 + ((a % 4) * 16 + b / 16) * 4096 + ((b % 16) * 4 + c / 64) * 64 + c
        % 64;
    lemma_sextets(a / 4, a % 4, b / 16, b % 16, c / 64, c % 64);
    assert(a == 4 * (a / 4) + a % 4);
    assert(b == 16 * (b / 16) + b % 16);
    assert(c == 64 * (c / 64) + c % 64);
    lemma_octets(a, b, c);
}

/// Six bits at a time, the bits of three bytes are those that eight bits at a time are.
proof fn lemma_sextets(q: int, r: int, s: int, t: int, u: int, v: int)
    ensures
        q * 262144 + (r * 16 + s) * 4096 + (t * 4 + u) * 64 + v == (4 * q + r) * 65536 + (16 * s
            + t) * 256 + (64 * u + v),
{
}

/// The bytes of a number of three bytes.
proof fn lemma_octets(a: int, b: int, c: int)
    requires
        0 <= a < 256,
        0 <= b < 256,
        0 <= c < 256,
    ensures
        ({
            let bits = a * 65536 + b * 256 + c;
            bits / 65536 == a && bits / 256 % 256 == b && bits % 256 == c
        }),
{
    let bits = a * 65536 + b * 256 + c;
    vstd::arithmetic::div_mod::lemma_fundamental_div_mod_converse(bits, 65536, a, b * 256 + c);
    vstd::arithmetic::div_mod::lemma_fundamental_div_mod_converse(bits, 256, a * 256 + b, c);
    vstd::arithmetic::div_mod::lemma_fundamental_div_mod_converse(a * 256 + b, 256, a, b);
}

/// The first four characters of text in base 64 are read as the first bytes.
proof fn lemma_base64_group(text: Seq<char>, a: int, b: int, c: int)
    requires
        0 <= a < 256,
        0 <= b < 256,
        0 <= c < 256,
        text.len() >= 4,
        text[0] == base64_digit(a / 4),
        text[1] == base64_digit((a % 4) * 16 + b / 16),
        text[2] == base64_digit((b % 16) * 4 + c / 64) || (text[2] == '=' && b == 0 && c == 0),
        text[3] == base64_digit(c % 64) || (text[3] == '=' && c == 0),
    ensures
        base64_read(text) == if text[2] == '=' {
            seq![a as u8]
        } else if text[3] == '=' {
            seq![a as u8, b as u8]
        } else {
            seq![a as u8, b as u8, c as u8] + base64_read(text.skip(4))
        },
{
    lemma_base64_digit(a / 4);
    lemma_base64_digit((a % 4) * 16 + b / 16);
    lemma_base64_digit((b % 16) * 4 + c / 64);
    lemma_base64_digit(c % 64);
    lemma_bits(a, b, c);
    let bytes = seq![a as u8, b as u8, c as u8];
    assert(bytes.take(1) =~= seq![a as u8]);
    assert(bytes.take(2) =~= seq![a as u8, b as u8]);
}

/// Bytes in base 64 are read as those bytes again, and take up four characters for every three
/// of them that were begun.
pub proof fn law_base64_reads_back(bytes: Seq<u8>)
    ensures
        base64_read(base64_of(bytes)) == bytes,
        base64_of(bytes).len() == 4 * ((bytes.len() + 2) / 3),
    decreases bytes.len(),
{
    if bytes.len() == 0 {
        assert(base64_read(base64_of(bytes)) =~= bytes);
    } else {
        let a = bytes[0] as int;
        let b = if bytes.len() > 1 {
            bytes[1] as int
        } else {
            0
        };
        let c = if bytes.len() > 2 {
            bytes[2] as int
        } else {
            0
        };
        let text = base64_of(bytes);
        lemma_base64_digit((b % 16) * 4 + c / 64);
        lemma_base64_digit(c % 64);
        lemma_base64_group(text, a, b, c);
        if bytes.len() <= 3 {
            assert(text.skip(4) =~= Seq::<char>::empty());
            assert(base64_read(text.skip(4)) =~= Seq::<u8>::empty());
            assert(base64_read(text) =~= bytes);
        } else {
            law_base64_reads_back(bytes.skip(3));
            assert(text.skip(4) =~= base64_of(bytes.skip(3)));
            assert(base64_read(text) =~= bytes);
        }
    }
}

/// An image is taken out if it can be read and is neither narrower nor lower than the options
/// say, and with the size that it has.
pub proof fn law_which_images_are_taken_out(options: ExtractOptions, read: ObjectRead)
    ensures
        wanted_size(options, read) is Some <==> (match read {
            ObjectRead::Decoded { width, height } => width >= options.min_width && height
                >= options.min_height,
            _ => false,
        }),
        wanted_size(options, read) matches Some((width, height)) ==> read == (ObjectRead::Decoded {
            width,
            height,
        }),
        forall|w: u32, h: u32|
            #![trigger is_large_enough(options, w, h)]
            is_large_enough(options, w, h) <==> w >= options.min_width && h >= options.min_height,
{
}

/// A page is written after what was written before, under a heading with its number; pages after
/// the first are set off by an empty line. Nothing else changes.
pub proof fn law_page_is_written_under_its_number(m: MarkdownView, page: nat, text: Seq<char>)
    ensures
        ({
            let next = with_page(m, page, text);
            let number = next.out.subrange(
                (m.out.len() + (if m.out.len() == 0 {
                    8int
                } else {
                    10int
                })),
                next.out.len() - text.len() - 3,
            );
            &&& number_read(number) == page
            &&& next.out == m.out + (if m.out.len() == 0 {
                Seq::empty()
            } else {
                "\n\n"@
            }) + "## Page "@ + number + "\n\n"@ + text + "\n"@
            &&& next.numbered == m.numbered && next.saved == m.saved && next.references
                == m.references && next.prefix == m.prefix && next.max_images == m.max_images
        }),
{
    reveal_strlit("\n\n");
    reveal_strlit("\n");
    reveal_strlit("## Page ");
    law_digits_read_as_the_number(page);
    let next = with_page(m, page, text);
    let start = m.out.len() + (if m.out.len() == 0 {
        8int
    } else {
        10int
    });
    assert(next.out.subrange(start, next.out.len() - text.len() - 3) =~= digits(page));
}

/// Lines one after the other: what was written of the lines before, the line, and its end.
pub proof fn law_lines_follow_each_other(a: Seq<Seq<char>>, b: Seq<Seq<char>>, line: Seq<char>)
    ensures
        lines_of(Seq::empty()) == Seq::<char>::empty(),
        lines_of(seq![line]) == line + "\n"@,
        lines_of(a + b) == lines_of(a) + lines_of(b),
    decreases b.len(),
{
    reveal_with_fuel(lines_of, 2);
    assert(seq![line].drop_last() =~= Seq::<Seq<char>>::empty());
    assert(lines_of(seq![line]) =~= line + "\n"@);
    if b.len() == 0 {
        assert(a + b =~= a);
        assert(lines_of(a) + lines_of(b) =~= lines_of(a));
    } else {
        law_lines_follow_each_other(a, b.drop_last(), line);
        assert((a + b).drop_last() =~= a + b.drop_last());
        assert(lines_of(a + b) =~= lines_of(a) + lines_of(b));
    }
}

/// The references of a page stand after its text, each on a line of its own and in their order,
/// and are written once; a page without images is left as it is.
pub proof fn law_references_follow_the_page(m: MarkdownView)
    ensures
        with_references(m).references == Seq::<Seq<char>>::empty(),
        m.references.len() == 0 ==> with_references(m).out == m.out,
        m.references.len() > 0 ==> with_references(m).out == m.out + "\n"@ + lines_of(m.references),
        with_references(m).saved == m.saved,
        with_references(m).numbered == m.numbered,
        with_references(m).prefix == m.prefix,
        with_references(m).max_images == m.max_images,
{
}

/// An image that was written is referred to by its file below the prefix, after those of the page
/// that were written before it. The text is left as it is until the page ends.
pub proof fn law_image_is_referred_to_by_its_file(m: MarkdownView, name: Seq<char>)
    ensures
        ({
            let next = with_image(m, name);
            &&& next.references.last() == "![]("@ + m.prefix + "/"@ + name + ")"@
            &&& next.references.drop_last() == m.references
            &&& next.saved == m.saved + 1
            &&& next.numbered == m.numbered
            &&& next.out == m.out
            &&& next.prefix == m.prefix
            &&& next.max_images == m.max_images
        }),
{
    assert(with_image(m, name).references.drop_last() =~= m.references);
}

/// A run for Markdown begins with nothing written, before the first page, with the limit that the
/// options set, and with the prefix that was given but for slashes at its end.
pub proof fn law_markdown_begins_with_nothing(
    path: Seq<char>,
    prefix: Seq<char>,
    with_images: bool,
    options: ExtractOptions,
)
    ensures
        ({
            let run = markdown_begins(path, prefix, with_images, options);
            let m = run.writer;
            &&& m.out.len() == 0 && m.references.len() == 0
            &&& m.numbered == 0 && m.saved == 0 && run.pages == 0
            &&& m.max_images == options.max_images
            &&& run.options == options && run.with_images == with_images && run.path == path
            &&& run.stage is Page
            &&& m.prefix.len() <= prefix.len()
            &&& m.prefix == prefix.take(m.prefix.len() as int)
            &&& m.prefix.len() > 0 ==> m.prefix.last() != '/'
            &&& forall|i: int| m.prefix.len() <= i < prefix.len() ==> #[trigger] prefix[i] == '/'
        }),
{
    law_stripped_back(prefix, crate::text::just('/'));
}

/// Whether a run waits for the next thing as a run does that looks for images.
pub open spec fn looks_on(run: MarkdownRunView, next: MarkdownRunView) -> bool {
    next == MarkdownRunView { stage: MarkdownStageView::Object, ..run }
}

/// What a run for Markdown does about an input. A page is written and numbered by one more than
/// the pages before; its images are looked at where images are taken out. A page that cannot be
/// read ends the run with an error that tells which; after the last page the run ends with what
/// was written.
pub proof fn law_markdown_goes_page_by_page(run: MarkdownRunView, text: Seq<char>, why: Seq<char>)
    ensures
        after_markdown_input(run, MarkdownInputView::Page(None)).1 == MarkdownStepView::End(
            Ok(run.writer.out),
        ),
        after_markdown_input(run, MarkdownInputView::Page(Some(Err(why)))).1
            == MarkdownStepView::End(
            Err(ExtractErrorView::Pdfium(page_text_message(run.pages + 1, run.path, why))),
        ),
        ({
            let (next, step) = after_markdown_input(
                run,
                MarkdownInputView::Page(Some(Ok(text))),
            );
            &&& next.writer == with_page(run.writer, run.pages + 1, text)
            &&& next.pages == run.pages + 1
            &&& run.with_images ==> step is NextObject && next.stage is Object
            &&& !run.with_images ==> step is NextPage && next.stage is Page
            &&& next.options == run.options && next.with_images == run.with_images && next.path
                == run.path
        }),
{
}

/// What a run for Markdown does about the objects of a page. What is no image, or too small, or
/// cannot be encoded or written, is passed over and changes nothing but the number of the next
/// image. Every image that is encoded is numbered by one more than the images before, and is
/// written under the name with that number. One that was written is referred to under that name,
/// and the page goes on until as many were written as the options allow.
pub proof fn law_markdown_takes_images_out(run: MarkdownRunView, read: ObjectRead)
    requires
        run.stage !is Ended,
    ensures
        ({
            let (next, step) = after_markdown_input(run, MarkdownInputView::Object(Some(read)));
            let wanted = match read {
                ObjectRead::Decoded { width, height } => width >= run.options.min_width && height
                    >= run.options.min_height,
                _ => false,
            };
            &&& wanted ==> step is Encode && next == MarkdownRunView {
                stage: MarkdownStageView::Encoding,
                ..run
            }
            &&& !wanted ==> step is NextObject && looks_on(run, next)
        }),
        ({
            let (next, step) = after_markdown_input(run, MarkdownInputView::Encoded(false));
            step is NextObject && looks_on(run, next)
        }),
        ({
            let (next, step) = after_markdown_input(run, MarkdownInputView::Encoded(true));
            &&& step is Save
            &&& names_image(step->Save_0, run.writer.numbered + 1)
            &&& next.stage == MarkdownStageView::Saving(step->Save_0)
            &&& next.writer == MarkdownView { numbered: run.writer.numbered + 1, ..run.writer }
            &&& next.pages == run.pages && next.options == run.options && next.with_images
                == run.with_images
        }),
        ({
            let (next, step) = after_markdown_input(run, MarkdownInputView::Saved(false));
            step is NextObject && looks_on(run, next)
        }),
        run.stage is Saving && run.writer.saved + 1 < run.writer.max_images ==> {
            let (next, step) = after_markdown_input(run, MarkdownInputView::Saved(true));
            &&& step is NextObject
            &&& next.stage is Object
            &&& next.writer == with_image(run.writer, run.stage->Saving_0)
            &&& next.pages == run.pages
        },
        run.stage is Saving && run.writer.saved + 1 >= run.writer.max_images ==> {
            let (next, step) = after_markdown_input(run, MarkdownInputView::Saved(true));
            let page = with_references(with_image(run.writer, run.stage->Saving_0));
            step == MarkdownStepView::End(Ok(page.out))
        },
        run.writer.saved < run.writer.max_images ==> {
            let (next, step) = after_markdown_input(run, MarkdownInputView::Object(None));
            &&& step is NextPage
            &&& next.stage is Page
            &&& next.writer == with_references(run.writer)
            &&& next.pages == run.pages
        },
        run.writer.saved >= run.writer.max_images ==> {
            let (next, step) = after_markdown_input(run, MarkdownInputView::Object(None));
            step == MarkdownStepView::End(Ok(with_references(run.writer).out)) && next.stage
                is Ended
        },
{
    lemma_image_name(run.writer.numbered + 1);
}

/// What a run for images does about an input: pages are counted, images that are wanted are
/// encoded, and each that was is kept with the number, the page, the size, the bytes and the
/// digest that it has, after those before it. The run ends after the last page, or when there
/// are enough.
pub proof fn law_images_are_kept_as_they_are(
    run: ImagesRunView,
    png: Seq<u8>,
    sha256: Seq<char>,
    width: u32,
    height: u32,
)
    requires
        run.images.len() < u32::MAX,
        run.pages <= u32::MAX,
        run.stage == (ImagesStage::Encoding { width, height }),
    ensures
        ({
            let (next, step) = after_images_input(
                run,
                ImagesInputView::Encoded(Some((png, sha256))),
            );
            let images = if step is End {
                step->End_0
            } else {
                next.images
            };
            let image = images.last();
            &&& images.drop_last() == run.images
            &&& image.index == run.images.len() + 1
            &&& image.mime_type == "image/png"@
            &&& image.page is Some && image.page->0 == run.pages
            &&& image.width == width && image.height == height
            &&& base64_read(image.data_base64) == png
            &&& image.sha256 == sha256
            &&& step is End <==> run.images.len() + 1 >= run.options.max_images
            &&& step !is End ==> step is NextObject && next.stage is Object && next.pages
                == run.pages
        }),
{
    law_base64_reads_back(png);
    let (next, step) = after_images_input(run, ImagesInputView::Encoded(Some((png, sha256))));
    let images = if step is End {
        step->End_0
    } else {
        next.images
    };
    assert(images.drop_last() =~= run.images);
}

/// How a run for images goes through the pages and their objects.
pub proof fn law_images_are_looked_for_page_by_page(run: ImagesRunView, read: ObjectRead)
    ensures
        ({
            let (next, step) = after_images_input(run, ImagesInputView::Page(true));
            step is NextObject && next == ImagesRunView {
                pages: run.pages + 1,
                stage: ImagesStage::Object,
                ..run
            }
        }),
        after_images_input(run, ImagesInputView::Page(false)).1 == ImagesStepView::End(run.images),
        ({
            let (next, step) = after_images_input(run, ImagesInputView::Object(None));
            step is NextPage && next == ImagesRunView { stage: ImagesStage::Page, ..run }
        }),
        ({
            let (next, step) = after_images_input(run, ImagesInputView::Object(Some(read)));
            match read {
                ObjectRead::Decoded { width, height } if width >= run.options.min_width && height
                    >= run.options.min_height => step is Encode && next == ImagesRunView {
                    stage: ImagesStage::Encoding { width, height },
                    ..run
                },
                _ => step is NextObject && next == ImagesRunView {
                    stage: ImagesStage::Object,
                    ..run
                },
            }
        }),
        ({
            let (next, step) = after_images_input(run, ImagesInputView::Encoded(None));
            step is NextObject && next == ImagesRunView { stage: ImagesStage::Object, ..run }
        }),
{
}

/// What a run that writes images to files does about an image: it is written under the name with
/// its number, and kept with the place that it was written to. One that cannot be written ends
/// the run with the error.
pub proof fn law_images_are_saved_under_their_numbers(
    run: SavingRunView,
    file: SavedFileView,
    why: Seq<char>,
    width: u32,
    height: u32,
)
    requires
        run.images.len() < u32::MAX,
        run.pages <= u32::MAX,
    ensures
        run.stage == (ImagesStage::Encoding { width, height }) ==> {
            let (next, step) = after_saving_input(run, SavingInputView::Encoded(true));
            &&& step is Save
            &&& names_image(step->Save_0, run.images.len() + 1)
            &&& next == SavingRunView { stage: ImagesStage::Saving { width, height }, ..run }
        },
        run.stage == (ImagesStage::Saving { width, height }) ==> {
            let (next, step) = after_saving_input(run, SavingInputView::Saved(Ok(file)));
            let images = match step {
                SavingStepView::End(Ok(images)) => images,
                _ => next.images,
            };
            let image = images.last();
            &&& images.drop_last() == run.images
            &&& image.index == run.images.len() + 1
            &&& image.mime_type == "image/png"@
            &&& image.page is Some && image.page->0 == run.pages
            &&& image.width == width && image.height == height
            &&& image.rel_path == file.rel_path && image.abs_path == file.abs_path
            &&& image.sha256 == file.sha256
            &&& step is End <==> run.images.len() + 1 >= run.options.max_images
            &&& step !is End ==> step is NextObject && next.stage is Object && next.pages
                == run.pages
        },
        after_saving_input(run, SavingInputView::Saved(Err(why))).1 == SavingStepView::End(
            Err(ExtractErrorView::Io(why)),
        ),
{
    lemma_image_name(run.images.len() + 1);
    if run.stage == (ImagesStage::Saving { width, height }) {
        let (next, step) = after_saving_input(run, SavingInputView::Saved(Ok(file)));
        let images = match step {
            SavingStepView::End(Ok(images)) => images,
            _ => next.images,
        };
        assert(images.drop_last() =~= run.images);
    }
}

/// How a run that writes images to files goes through the pages and their objects.
pub proof fn law_images_are_saved_page_by_page(run: SavingRunView, read: ObjectRead)
    ensures
        ({
            let (next, step) = after_saving_input(run, SavingInputView::Page(true));
            step is NextObject && next == SavingRunView {
                pages: run.pages + 1,
                stage: ImagesStage::Object,
                ..run
            }
        }),
        after_saving_input(run, SavingInputView::Page(false)).1 == SavingStepView::End(
            Ok(run.images),
        ),
        ({
            let (next, step) = after_saving_input(run, SavingInputView::Object(None));
            step is NextPage && next == SavingRunView { stage: ImagesStage::Page, ..run }
        }),
        ({
            let (next, step) = after_saving_input(run, SavingInputView::Object(Some(read)));
            match read {
                ObjectRead::Decoded { width, height } if width >= run.options.min_width && height
                    >= run.options.min_height => step is Encode && next == SavingRunView {
                    stage: ImagesStage::Encoding { width, height },
                    ..run
                },
                _ => step is NextObject && next == SavingRunView {
                    stage: ImagesStage::Object,
                    ..run
                },
            }
        }),
        ({
            let (next, step) = after_saving_input(run, SavingInputView::Encoded(false));
            step is NextObject && next == SavingRunView { stage: ImagesStage::Object, ..run }
        }),
{
}

/// What is said of a page whose text cannot be read holds the number of the page, the document
/// and the reason; what is said of a document that cannot be opened holds the document, and the
/// reason unless that is a password.
pub proof fn law_failures_are_told(page: nat, path: Seq<char>, why: Seq<char>)
    ensures
        exists|number: Seq<char>| #[trigger]
            number_read(number) == page && page_text_message(page, path, why) == "Page "@ + number
                + " text extraction failed in '"@ + path + "': "@ + why,
        open_message(path, true, why) == "PDF is password-protected and cannot be read: '"@ + path
            + "'"@,
        open_message(path, false, why) == "Failed to open PDF '"@ + path + "': "@ + why,
{
    law_digits_read_as_the_number(page);
    assert(number_read(digits(page)) == page);
}

/// A picture is whole if it has a byte for each pixel in gray, and four for each in color.
pub proof fn law_when_a_picture_is_whole(bitmap: Bitmap)
    ensures
        bitmap.channels == Channels::Gray ==> (bitmap.is_filled() <==> bitmap.pixels@.len()
            == bitmap.width * bitmap.height),
        bitmap.channels == Channels::Rgba ==> (bitmap.is_filled() <==> bitmap.pixels@.len()
            == bitmap.width * bitmap.height * 4),
{
    assert(bitmap.width * bitmap.height * 1 == bitmap.width * bitmap.height);
}

} // verus!
