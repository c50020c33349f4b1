//! What is taken out of a PDF document: its text as Markdown with references to its images,
//! and the images themselves.
//!
//! The document is read object by object; what is kept of it, under which names, and when
//! to stop is decided here.

use base64::{engine::general_purpose::STANDARD, Engine as _};
use vstd::prelude::*;

use crate::text::{
    chars_of, concat3, digits, just, strip_back, strip_char_back, text_of, texts, u64_text,
};

verus! {

/// Which images are taken out: those of at least that width and height, up to so many.
#[derive(Debug, Clone, Copy)]
pub struct ExtractOptions {
    pub min_width: u32,
    pub min_height: u32,
    pub max_images: usize,
}

/// What went wrong with a document.
#[derive(Debug)]
pub enum ExtractError {
    Pdfium(String),
    Io(String),
}

/// What went wrong with a document, its text as a sequence of characters.
#[verifier::ext_equal]
pub enum ExtractErrorView {
    Pdfium(Seq<char>),
    Io(Seq<char>),
}

impl View for ExtractError {
    type V = ExtractErrorView;

    open spec fn view(&self) -> ExtractErrorView {
        match self {
            ExtractError::Pdfium(s) => ExtractErrorView::Pdfium(s@),
            ExtractError::Io(s) => ExtractErrorView::Io(s@),
        }
    }
}

/// An image of a document, its bytes as text.
#[derive(Debug)]
pub struct ExtractedImage {
    pub index: u32,
    pub mime_type: String,
    pub page: Option<u32>,
    pub width: u32,
    pub height: u32,
    pub data_base64: String,
    pub sha256: String,
}

/// An image of a document that was written to a file.
#[derive(Debug)]
pub struct SavedImage {
    pub index: u32,
    pub mime_type: String,
    pub page: Option<u32>,
    pub width: u32,
    pub height: u32,
    pub rel_path: String,
    pub abs_path: String,
    pub sha256: String,
}

/// The digit for six bits.
pub open spec fn base64_digit(n: int) -> char {
    if n < 26 {
        (65 + n) as char
    } else if n < 52 {
        (97 + n - 26) as char
    } else if n < 62 {
        (48 + n - 52) as char
    } else if n == 62 {
        '+'
    } else {
        '/'
    }
}

/// The bytes in base 64: four digits for three bytes, the last four filled up with `=`.
pub open spec fn base64_of(bytes: Seq<u8>) -> Seq<char>
    decreases bytes.len(),
{
    if bytes.len() == 0 {
        Seq::empty()
    } else {
        let a = bytes[0] as int;
        let b = if bytes.len() > 1 {
            bytes[1] as int
        } else {
            0
        };
        let c = if bytes.len() > 2 {
            bytes[2] as int
        } else {
            0
        };
        let group = seq![
            base64_digit(a / 4),
            base64_digit((a % 4) * 16 + b / 16),
            if bytes.len() > 1 {
                base64_digit((b % 16) * 4 + c / 64)
            } else {
                '='
            },
            if bytes.len() > 2 {
                base64_digit(c % 64)
            } else {
                '='
            },
        ];
        if bytes.len() <= 3 {
            group
        } else {
            group + base64_of(bytes.skip(3))
        }
    }
}

/// `base64::engine::general_purpose::STANDARD.encode`: the bytes in base 64, in the
/// standard alphabet and with padding. The length is limited because the text must fit in
/// memory.
#[verifier::external_body]
fn encode_base64(bytes: &[u8]) -> (r: String)
    requires
        bytes@.len() <= usize::MAX / 4,
    ensures
        r@ == base64_of(bytes@),
{
    STANDARD.encode(bytes)
}

/// What is said of a document that cannot be opened.
pub open spec fn open_message(path: Seq<char>, password: bool, why: Seq<char>) -> Seq<char> {
    if password {
        "PDF is password-protected and cannot be read: '"@ + path + "'"@
    } else {
        "Failed to open PDF '"@ + path + "': "@ + why
    }
}

/// The error for a document that cannot be opened. `password` says that it is protected by
/// one, where that is told apart.
pub fn open_error(path: &str, password: bool, why: &str) -> (r: ExtractError)
    ensures
        r@ == ExtractErrorView::Pdfium(open_message(path@, password, why@)),
{
    if password {
        ExtractError::Pdfium(
            concat3("PDF is password-protected and cannot be read: '", path, "'"),
        )
    } else {
        let mut s = concat3("Failed to open PDF '", path, "': ");
        s.append(why);
        ExtractError::Pdfium(s)
    }
}

/// What is said of a page whose text cannot be read.
pub open spec fn page_text_message(page: nat, path: Seq<char>, why: Seq<char>) -> Seq<char> {
    "Page "@ + digits(page) + " text extraction failed in '"@ + path + "': "@ + why
}

/// The error for a page whose text cannot be read.
pub fn page_text_error(page: usize, path: &str, why: &str) -> (r: ExtractError)
    ensures
        r@ == ExtractErrorView::Pdfium(page_text_message(page as nat, path@, why@)),
{
    let mut s = concat3("Page ", u64_text(page as u64).as_str(), " text extraction failed in '");
    s.append(path);
    s.append("': ");
    s.append(why);
    ExtractError::Pdfium(s)
}

/// Whether an image of that size is taken out.
pub open spec fn is_large_enough(options: ExtractOptions, width: u32, height: u32) -> bool {
    width >= options.min_width && height >= options.min_height
}

/// What an object of a page turned out to be: something other than an image, an image that
/// cannot be read, or an image of that size.
#[derive(Debug, Clone, Copy)]
pub enum ObjectRead {
    NotImage,
    Unreadable,
    Decoded { width: u32, height: u32 },
}

/// The size of an object that is taken out; nothing where it is passed over.
pub open spec fn wanted_size(options: ExtractOptions, read: ObjectRead) -> Option<(u32, u32)> {
    match read {
        ObjectRead::Decoded { width, height } => if is_large_enough(options, width, height) {
            Some((width, height))
        } else {
            None
        },
        _ => None,
    }
}

/// The size of an object that is taken out; nothing where it is passed over.
pub fn wants_object(options: &ExtractOptions, read: ObjectRead) -> (r: Option<(u32, u32)>)
    ensures
        r == wanted_size(*options, read),
{
    match read {
        ObjectRead::Decoded { width, height } => {
            if width < options.min_width || height < options.min_height {
                None
            } else {
                Some((width, height))
            }
        },
        _ => None,
    }
}

/// The name of the file of an image.
pub open spec fn image_name(index: nat) -> Seq<char> {
    "img-"@ + digits(index) + ".png"@
}

/// The name of the file of an image.
fn image_file_name(index: u32) -> (r: String)
    ensures
        r@ == image_name(index as nat),
{
    concat3("img-", u64_text(index as u64).as_str(), ".png")
}

/// The reference to an image in Markdown.
pub open spec fn image_reference(prefix: Seq<char>, name: Seq<char>) -> Seq<char> {
    "![]("@ + prefix + "/"@ + name + ")"@
}

/// The lines, each with an end of line.
pub open spec fn lines_of(lines: Seq<Seq<char>>) -> Seq<char>
    decreases lines.len(),
{
    if lines.len() == 0 {
        Seq::empty()
    } else {
        lines_of(lines.drop_last()) + lines.last() + "\n"@
    }
}

/// The Markdown of a document as far as it was read.
#[verifier::ext_equal]
pub struct MarkdownView {
    /// What is written.
    pub out: Seq<char>,
    /// How many images were numbered.
    pub numbered: nat,
    /// How many images were written to files.
    pub saved: nat,
    /// The references to the images of the present page.
    pub references: Seq<Seq<char>>,
    /// What stands before the names of images in references.
    pub prefix: Seq<char>,
    /// After how many images no more are taken out.
    pub max_images: nat,
}

/// The Markdown after a page with that number and text was begun.
pub open spec fn with_page(m: MarkdownView, page: nat, text: Seq<char>) -> MarkdownView {
    let gap = if m.out.len() == 0 {
        Seq::empty()
    } else {
        "\n\n"@
    };
    MarkdownView {
        out: m.out + gap + "## Page "@ + digits(page) + "\n\n"@ + text + "\n"@,
        ..m
    }
}

/// The Markdown after an image with that name was written to a file.
pub open spec fn with_image(m: MarkdownView, name: Seq<char>) -> MarkdownView {
    MarkdownView {
        saved: m.saved + 1,
        references: m.references.push(image_reference(m.prefix, name)),
        ..m
    }
}

/// The Markdown after the references of the present page were written.
pub open spec fn with_references(m: MarkdownView) -> MarkdownView {
    MarkdownView {
        out: if m.references.len() == 0 {
            m.out
        } else {
            m.out + "\n"@ + lines_of(m.references)
        },
        references: Seq::empty(),
        ..m
    }
}

/// What is left when the Markdown was handed over.
pub open spec fn handed_over(m: MarkdownView) -> MarkdownView {
    MarkdownView { out: Seq::empty(), ..m }
}

/// Writes the Markdown of a document, page by page.
#[derive(Debug)]
pub struct MarkdownWriter {
    out: String,
    numbered: u32,
    saved: u32,
    references: Vec<String>,
    prefix: String,
    max_images: usize,
}

impl View for MarkdownWriter {
    type V = MarkdownView;

    closed spec fn view(&self) -> MarkdownView {
        MarkdownView {
            out: self.out@,
            numbered: self.numbered as nat,
            saved: self.saved as nat,
            references: texts(self.references@),
            prefix: self.prefix@,
            max_images: self.max_images as nat,
        }
    }
}

impl MarkdownWriter {
    /// A writer that begins. Slashes at the end of the prefix are left out, so that there is
    /// one slash between it and a name.
    pub fn new(media_url_prefix: &str, options: &ExtractOptions) -> (r: MarkdownWriter)
        ensures
            r@ == (MarkdownView {
                out: Seq::empty(),
                numbered: 0,
                saved: 0,
                references: Seq::empty(),
                prefix: strip_back(media_url_prefix@, just('/')),
                max_images: options.max_images as nat,
            }),
    {
        let chars = chars_of(media_url_prefix);
        let r = MarkdownWriter {
            out: String::new(),
            numbered: 0,
            saved: 0,
            references: Vec::new(),
            prefix: text_of(strip_char_back(chars.as_slice(), '/')),
            max_images: options.max_images,
        };
        assert(r@.references =~= Seq::empty());
        r
    }

    /// Begins a page.
    pub fn begin_page(&mut self, page: usize, text: &str)
        ensures
            final(self)@ == with_page(old(self)@, page as nat, text@),
    {
        if chars_of(self.out.as_str()).len() > 0 {
            self.out.append("\n\n");
        }
        self.out.append("## Page ");
        self.out.append(u64_text(page as u64).as_str());
        self.out.append("\n\n");
        self.out.append(text);
        self.out.append("\n");
        assert(self@.out =~= with_page(old(self)@, page as nat, text@).out);
    }

    /// Numbers an image: the result is the name that it is to be written under. An image
    /// that then cannot be written keeps its number.
    pub fn number_image(&mut self) -> (r: String)
        requires
            old(self)@.numbered < u32::MAX,
        ensures
            r@ == image_name(old(self)@.numbered + 1),
            final(self)@ == (MarkdownView {
                numbered: old(self)@.numbered + 1,
                ..old(self)@
            }),
    {
        self.numbered = self.numbered + 1;
        image_file_name(self.numbered)
    }

    /// Notes that an image was written under that name. The result says whether no more
    /// images are taken out.
    pub fn image_saved(&mut self, name: &str) -> (r: bool)
        requires
            old(self)@.saved < u32::MAX,
        ensures
            final(self)@ == with_image(old(self)@, name@),
            r == (final(self)@.saved >= old(self)@.max_images),
    {
        self.saved = self.saved + 1;
        let mut reference = concat3("![](", self.prefix.as_str(), "/");
        reference.append(name);
        reference.append(")");
        let ghost before = texts(self.references@);
        let ghost text = reference@;
        self.references.push(reference);
        assert(texts(self.references@) =~= before.push(text));
        assert(text =~= image_reference(self@.prefix, name@));
        self.saved as usize >= self.max_images
    }

    /// Ends a page whose images were looked at: their references follow its text. The
    /// result says whether the pages after it are left out, because enough images were
    /// taken out.
    pub fn end_page(&mut self) -> (r: bool)
        ensures
            final(self)@ == with_references(old(self)@),
            r == (old(self)@.saved >= old(self)@.max_images),
    {
        if self.references.len() > 0 {
            self.out.append("\n");
            let ghost start = self.out@;
            let ghost all = texts(self.references@);
            let mut i: usize = 0;
            assert(self.out@ =~= start + lines_of(all.take(0)));
            while i < self.references.len()
                invariant
                    i <= self.references@.len(),
                    all == texts(self.references@),
                    self.references == old(self).references,
                    self.numbered == old(self).numbered,
                    self.saved == old(self).saved,
                    self.prefix == old(self).prefix,
                    self.max_images == old(self).max_images,
                    self.out@ == start + lines_of(all.take(i as int)),
                decreases self.references@.len() - i,
            {
                assert(all.take(i as int + 1).drop_last() =~= all.take(i as int));
                self.out.append(self.references[i].as_str());
                self.out.append("\n");
                assert(self.out@ =~= start + lines_of(all.take(i as int + 1)));
                i += 1;
            }
            assert(all.take(i as int) =~= all);
            self.references = Vec::new();
        }
        assert(self@ =~= with_references(old(self)@));
        self.saved as usize >= self.max_images
    }

    /// Hands the Markdown over that was written.
    pub fn take_text(&mut self) -> (r: String)
        ensures
            r@ == old(self)@.out,
            final(self)@ == handed_over(old(self)@),
    {
        let mut out = String::new();
        std::mem::swap(&mut out, &mut self.out);
        assert(self@ =~= handed_over(old(self)@));
        out
    }
}

/// Every page opens with a heading that holds its number, whatever stands before it.
pub proof fn law_page_has_heading(m: MarkdownView, page: nat, text: Seq<char>)
    ensures
        ({
            let heading = "## Page "@ + digits(page) + "\n\n"@ + text + "\n"@;
            heading.is_suffix_of(with_page(m, page, text).out)
        }),
{
    let heading = "## Page "@ + digits(page) + "\n\n"@ + text + "\n"@;
    let out = with_page(m, page, text).out;
    assert(out.subrange(out.len() - heading.len(), out.len() as int) =~= heading);
}

/// What is written of a page follows what was written before it, so the Markdown reads in
/// the order of the pages.
pub proof fn law_markdown_grows(m: MarkdownView, page: nat, text: Seq<char>)
    ensures
        m.out.is_prefix_of(with_page(m, page, text).out),
        m.out.is_prefix_of(with_references(m).out),
{
    assert(with_page(m, page, text).out.subrange(0, m.out.len() as int) =~= m.out);
    assert(with_references(m).out.subrange(0, m.out.len() as int) =~= m.out);
}

/// Collects the images of a document.
#[derive(Debug)]
pub struct ImageCollector {
    images: Vec<ExtractedImage>,
    max_images: usize,
}

/// An image, its texts as sequences of characters.
#[verifier::ext_equal]
pub struct ImageView {
    pub index: u32,
    pub mime_type: Seq<char>,
    pub page: Option<u32>,
    pub width: u32,
    pub height: u32,
    pub data_base64: Seq<char>,
    pub sha256: Seq<char>,
}

impl View for ExtractedImage {
    type V = ImageView;

    open spec fn view(&self) -> ImageView {
        ImageView {
            index: self.index,
            mime_type: self.mime_type@,
            page: self.page,
            width: self.width,
            height: self.height,
            data_base64: self.data_base64@,
            sha256: self.sha256@,
        }
    }
}

/// The views of the images.
pub open spec fn image_views(images: Seq<ExtractedImage>) -> Seq<ImageView> {
    images.map_values(|i: ExtractedImage| i@)
}

impl ImageCollector {
    /// The images so far.
    pub closed spec fn collected(&self) -> Seq<ImageView> {
        image_views(self.images@)
    }

    /// After how many images no more are taken out.
    pub closed spec fn limit(&self) -> nat {
        self.max_images as nat
    }

    /// A collector that begins.
    pub fn new(options: &ExtractOptions) -> (r: ImageCollector)
        ensures
            r.collected() == Seq::<ImageView>::empty(),
            r.limit() == options.max_images,
    {
        let r = ImageCollector { images: Vec::new(), max_images: options.max_images };
        assert(r.collected() =~= Seq::empty());
        r
    }

    /// Adds an image of a page, given as the bytes of a PNG file and their digest. Images
    /// are numbered from 1. The result says whether no more images are taken out.
    pub fn add_image(&mut self, page: u32, width: u32, height: u32, png: &[u8], sha256: String)
        -> (r: bool)
        requires
            old(self).collected().len() < u32::MAX,
            png@.len() <= usize::MAX / 4,
        ensures
            final(self).collected() == old(self).collected().push(
                ImageView {
                    index: (old(self).collected().len() + 1) as u32,
                    mime_type: "image/png"@,
                    page: Some(page),
                    width,
                    height,
                    data_base64: base64_of(png@),
                    sha256: sha256@,
                },
            ),
            final(self).limit() == old(self).limit(),
            r == (final(self).collected().len() >= old(self).limit()),
    {
        let ghost before = image_views(self.images@);
        let index: u32 = self.images.len() as u32 + 1;
        let image = ExtractedImage {
            index,
            mime_type: "image/png".to_owned(),
            page: Some(page),
            width,
            height,
            data_base64: encode_base64(png),
            sha256,
        };
        let ghost view = image@;
        self.images.push(image);
        assert(image_views(self.images@) =~= before.push(view));
        self.images.len() >= self.max_images
    }

    /// Hands the images over that were collected.
    pub fn take_all(&mut self) -> (r: Vec<ExtractedImage>)
        ensures
            image_views(r@) == old(self).collected(),
            final(self).collected() == Seq::<ImageView>::empty(),
            final(self).limit() == old(self).limit(),
    {
        let mut images: Vec<ExtractedImage> = Vec::new();
        std::mem::swap(&mut images, &mut self.images);
        assert(image_views(self.images@) =~= Seq::empty());
        images
    }
}

/// Collects the images of a document that were written to files.
#[derive(Debug)]
pub struct SavedCollector {
    images: Vec<SavedImage>,
    max_images: usize,
}

/// An image that was written to a file, its texts as sequences of characters.
#[verifier::ext_equal]
pub struct SavedView {
    pub index: u32,
    pub mime_type: Seq<char>,
    pub page: Option<u32>,
    pub width: u32,
    pub height: u32,
    pub rel_path: Seq<char>,
    pub abs_path: Seq<char>,
    pub sha256: Seq<char>,
}

impl View for SavedImage {
    type V = SavedView;

    open spec fn view(&self) -> SavedView {
        SavedView {
            index: self.index,
            mime_type: self.mime_type@,
            page: self.page,
            width: self.width,
            height: self.height,
            rel_path: self.rel_path@,
            abs_path: self.abs_path@,
            sha256: self.sha256@,
        }
    }
}

/// The views of the images.
pub open spec fn saved_views(images: Seq<SavedImage>) -> Seq<SavedView> {
    images.map_values(|i: SavedImage| i@)
}

impl SavedCollector {
    /// The images so far.
    pub closed spec fn collected(&self) -> Seq<SavedView> {
        saved_views(self.images@)
    }

    /// After how many images no more are taken out.
    pub closed spec fn limit(&self) -> nat {
        self.max_images as nat
    }

    /// A collector that begins.
    pub fn new(options: &ExtractOptions) -> (r: SavedCollector)
        ensures
            r.collected() == Seq::<SavedView>::empty(),
            r.limit() == options.max_images,
    {
        let r = SavedCollector { images: Vec::new(), max_images: options.max_images };
        assert(r.collected() =~= Seq::empty());
        r
    }

    /// The name that the next image is to be written under. A failure to write it ends the
    /// collection.
    pub fn next_name(&self) -> (r: String)
        requires
            self.collected().len() < u32::MAX,
        ensures
            r@ == image_name(self.collected().len() + 1),
    {
        image_file_name(self.images.len() as u32 + 1)
    }

    /// Adds an image that was written to a file. The result says whether no more images are
    /// taken out.
    pub fn add_image(
        &mut self,
        page: u32,
        width: u32,
        height: u32,
        rel_path: String,
        abs_path: String,
        sha256: String,
    ) -> (r: bool)
        requires
            old(self).collected().len() < u32::MAX,
        ensures
            final(self).collected() == old(self).collected().push(
                SavedView {
                    index: (old(self).collected().len() + 1) as u32,
                    mime_type: "image/png"@,
                    page: Some(page),
                    width,
                    height,
                    rel_path: rel_path@,
                    abs_path: abs_path@,
                    sha256: sha256@,
                },
            ),
            final(self).limit() == old(self).limit(),
            r == (final(self).collected().len() >= old(self).limit()),
    {
        let ghost before = saved_views(self.images@);
        let index: u32 = self.images.len() as u32 + 1;
        let image = SavedImage {
            index,
            mime_type: "image/png".to_owned(),
            page: Some(page),
            width,
            height,
            rel_path,
            abs_path,
            sha256,
        };
        let ghost view = image@;
        self.images.push(image);
        assert(saved_views(self.images@) =~= before.push(view));
        self.images.len() >= self.max_images
    }

    /// Hands the images over that were collected.
    pub fn take_all(&mut self) -> (r: Vec<SavedImage>)
        ensures
            saved_views(r@) == old(self).collected(),
            final(self).collected() == Seq::<SavedView>::empty(),
            final(self).limit() == old(self).limit(),
    {
        let mut images: Vec<SavedImage> = Vec::new();
        std::mem::swap(&mut images, &mut self.images);
        assert(saved_views(self.images@) =~= Seq::empty());
        images
    }
}

} // verus!
