//! The runs through a PDF document: one that writes its text as Markdown, one that takes its
//! images out, and one that writes them to files.
//!
//! A run says what to do next, and is told what came of it. Pages and their objects are
//! looked at in the order of the document.

use vstd::prelude::*;

use crate::extract::{
    base64_of, handed_over, image_name, image_views, is_large_enough, page_text_error,
    page_text_message, saved_views, wanted_size, wants_object, with_image, with_page,
    with_references, ExtractError, ExtractErrorView, ExtractOptions, ExtractedImage,
    ImageCollector, ImageView, MarkdownView, MarkdownWriter, ObjectRead, SavedCollector,
    SavedImage, SavedView,
};
use crate::text::{digits, just, strip_back};

verus! {

/// What to do next for the Markdown of a document.
#[derive(Debug)]
pub enum MarkdownStep {
    /// Read the text of the next page.
    NextPage,
    /// Look at the next object of the page.
    NextObject,
    /// Encode the image that was looked at.
    Encode,
    /// Write the image that was encoded to a file of that name.
    Save(String),
    /// Nothing: this is the Markdown, or what went wrong.
    End(Result<String, ExtractError>),
}

/// What came of it.
#[derive(Debug)]
pub enum MarkdownInput {
    /// The text of the page, or why it cannot be read; nothing after the last page.
    Page(Option<Result<String, String>>),
    /// What the object is; nothing after the last one of the page.
    Object(Option<ObjectRead>),
    /// Whether the image was encoded.
    Encoded(bool),
    /// Whether the image was written.
    Saved(bool),
}

/// Where a run through a document is: what it waits for.
#[derive(Debug)]
enum MarkdownStage {
    Page,
    Object,
    Encoding,
    Saving(String),
    Ended,
}

#[verifier::ext_equal]
pub enum MarkdownStageView {
    Page,
    Object,
    Encoding,
    Saving(Seq<char>),
    Ended,
}

#[verifier::ext_equal]
pub enum MarkdownStepView {
    NextPage,
    NextObject,
    Encode,
    Save(Seq<char>),
    End(Result<Seq<char>, ExtractErrorView>),
}

#[verifier::ext_equal]
pub enum MarkdownInputView {
    Page(Option<Result<Seq<char>, Seq<char>>>),
    Object(Option<ObjectRead>),
    Encoded(bool),
    Saved(bool),
}

impl View for MarkdownStep {
    type V = MarkdownStepView;

    open spec fn view(&self) -> MarkdownStepView {
        match self {
            MarkdownStep::NextPage => MarkdownStepView::NextPage,
            MarkdownStep::NextObject => MarkdownStepView::NextObject,
            MarkdownStep::Encode => MarkdownStepView::Encode,
            MarkdownStep::Save(name) => MarkdownStepView::Save(name@),
            MarkdownStep::End(Ok(text)) => MarkdownStepView::End(Ok(text@)),
            MarkdownStep::End(Err(e)) => MarkdownStepView::End(Err(e@)),
        }
    }
}

impl View for MarkdownInput {
    type V = MarkdownInputView;

    open spec fn view(&self) -> MarkdownInputView {
        match self {
            MarkdownInput::Page(None) => MarkdownInputView::Page(None),
            MarkdownInput::Page(Some(Ok(text))) => MarkdownInputView::Page(Some(Ok(text@))),
            MarkdownInput::Page(Some(Err(why))) => MarkdownInputView::Page(Some(Err(why@))),
            MarkdownInput::Object(read) => MarkdownInputView::Object(*read),
            MarkdownInput::Encoded(done) => MarkdownInputView::Encoded(*done),
            MarkdownInput::Saved(done) => MarkdownInputView::Saved(*done),
        }
    }
}

impl View for MarkdownStage {
    type V = MarkdownStageView;

    closed spec fn view(&self) -> MarkdownStageView {
        match self {
            MarkdownStage::Page => MarkdownStageView::Page,
            MarkdownStage::Object => MarkdownStageView::Object,
            MarkdownStage::Encoding => MarkdownStageView::Encoding,
            MarkdownStage::Saving(name) => MarkdownStageView::Saving(name@),
            MarkdownStage::Ended => MarkdownStageView::Ended,
        }
    }
}

/// A run that writes the Markdown of a document.
#[verifier::ext_equal]
pub struct MarkdownRunView {
    /// What is written.
    pub writer: MarkdownView,
    /// Which images are taken out.
    pub options: ExtractOptions,
    /// Whether images are taken out at all.
    pub with_images: bool,
    /// Where the document is.
    pub path: Seq<char>,
    /// How many pages were begun.
    pub pages: nat,
    /// What the run waits for.
    pub stage: MarkdownStageView,
}

/// Whether the run waits for such an input.
pub open spec fn markdown_expects(stage: MarkdownStageView, input: MarkdownInputView) -> bool {
    match stage {
        MarkdownStageView::Page => input is Page,
        MarkdownStageView::Object => input is Object,
        MarkdownStageView::Encoding => input is Encoded,
        MarkdownStageView::Saving(_) => input is Saved,
        MarkdownStageView::Ended => false,
    }
}

/// The run once it waits for something else.
pub open spec fn markdown_waits(run: MarkdownRunView, stage: MarkdownStageView) -> MarkdownRunView {
    MarkdownRunView { stage, ..run }
}

/// What follows the last object of a page, or the image that is one too many: the references
/// of the page are written, and the document goes on unless enough images were taken out.
pub open spec fn after_page(run: MarkdownRunView) -> (MarkdownRunView, MarkdownStepView) {
    let writer = with_references(run.writer);
    if run.writer.saved >= run.writer.max_images {
        (
            MarkdownRunView {
                writer: handed_over(writer),
                stage: MarkdownStageView::Ended,
                ..run
            },
            MarkdownStepView::End(Ok(writer.out)),
        )
    } else {
        (
            MarkdownRunView { writer, stage: MarkdownStageView::Page, ..run },
            MarkdownStepView::NextPage,
        )
    }
}

/// What follows the text of a page.
pub open spec fn after_text(run: MarkdownRunView, text: Seq<char>) -> (
    MarkdownRunView,
    MarkdownStepView,
) {
    let begun = MarkdownRunView {
        writer: with_page(run.writer, run.pages + 1, text),
        pages: run.pages + 1,
        ..run
    };
    if run.with_images {
        (markdown_waits(begun, MarkdownStageView::Object), MarkdownStepView::NextObject)
    } else {
        (markdown_waits(begun, MarkdownStageView::Page), MarkdownStepView::NextPage)
    }
}

/// What follows an input.
pub open spec fn after_markdown_input(run: MarkdownRunView, input: MarkdownInputView) -> (
    MarkdownRunView,
    MarkdownStepView,
) {
    let next_object = (
        markdown_waits(run, MarkdownStageView::Object),
        MarkdownStepView::NextObject,
    );
    match input {
        MarkdownInputView::Page(None) => (
            MarkdownRunView {
                writer: handed_over(run.writer),
                stage: MarkdownStageView::Ended,
                ..run
            },
            MarkdownStepView::End(Ok(run.writer.out)),
        ),
        MarkdownInputView::Page(Some(Err(why))) => (
            markdown_waits(run, MarkdownStageView::Ended),
            MarkdownStepView::End(
                Err(ExtractErrorView::Pdfium(page_text_message(run.pages + 1, run.path, why))),
            ),
        ),
        MarkdownInputView::Page(Some(Ok(text))) => after_text(run, text),
        MarkdownInputView::Object(None) => after_page(run),
        MarkdownInputView::Object(Some(read)) => if wanted_size(run.options, read) is Some {
            (markdown_waits(run, MarkdownStageView::Encoding), MarkdownStepView::Encode)
        } else {
            next_object
        },
        MarkdownInputView::Encoded(done) => if done {
            let name = image_name(run.writer.numbered + 1);
            (
                MarkdownRunView {
                    writer: MarkdownView { numbered: run.writer.numbered + 1, ..run.writer },
                    stage: MarkdownStageView::Saving(name),
                    ..run
                },
                MarkdownStepView::Save(name),
            )
        } else {
            next_object
        },
        MarkdownInputView::Saved(done) => if done {
            let saved = MarkdownRunView {
                writer: with_image(run.writer, run.stage->Saving_0),
                ..run
            };
            if saved.writer.saved >= saved.writer.max_images {
                after_page(saved)
            } else {
                (markdown_waits(saved, MarkdownStageView::Object), MarkdownStepView::NextObject)
            }
        } else {
            next_object
        },
    }
}

/// A run that writes the Markdown of a document.
#[derive(Debug)]
pub struct MarkdownRun {
    writer: MarkdownWriter,
    options: ExtractOptions,
    with_images: bool,
    path: String,
    pages: usize,
    stage: MarkdownStage,
}

impl View for MarkdownRun {
    type V = MarkdownRunView;

    closed spec fn view(&self) -> MarkdownRunView {
        MarkdownRunView {
            writer: self.writer@,
            options: self.options,
            with_images: self.with_images,
            path: self.path@,
            pages: self.pages as nat,
            stage: self.stage@,
        }
    }
}

/// A run that begins.
pub open spec fn markdown_begins(
    path: Seq<char>,
    media_url_prefix: Seq<char>,
    with_images: bool,
    options: ExtractOptions,
) -> MarkdownRunView {
    MarkdownRunView {
        writer: MarkdownView {
            out: Seq::empty(),
            numbered: 0,
            saved: 0,
            references: Seq::empty(),
            prefix: strip_back(media_url_prefix, just('/')),
            max_images: options.max_images as nat,
        },
        options,
        with_images,
        path,
        pages: 0,
        stage: MarkdownStageView::Page,
    }
}

impl MarkdownRun {
    /// A run that begins, and the first thing to do. Images are taken out where there is a
    /// place to write them to.
    pub fn new(
        path: &str,
        media_url_prefix: &str,
        with_images: bool,
        options: &ExtractOptions,
    ) -> (r: (MarkdownRun, MarkdownStep))
        ensures
            r.0@ == markdown_begins(path@, media_url_prefix@, with_images, *options),
            is_within_limit(r.0@),
            r.1@ == MarkdownStepView::NextPage,
    {
        let run = MarkdownRun {
            writer: MarkdownWriter::new(media_url_prefix, options),
            options: *options,
            with_images,
            path: path.to_owned(),
            pages: 0,
            stage: MarkdownStage::Page,
        };
        (run, MarkdownStep::NextPage)
    }

    /// Ends a page.
    fn end_page(self) -> (r: (MarkdownRun, MarkdownStep))
        ensures
            (r.0@, r.1@) == after_page(self@),
    {
        let mut run = self;
        if run.writer.end_page() {
            run.end()
        } else {
            run.stage = MarkdownStage::Page;
            (run, MarkdownStep::NextPage)
        }
    }

    /// Ends the run with what is written.
    fn end(self) -> (r: (MarkdownRun, MarkdownStep))
        ensures
            r.0@ == (MarkdownRunView {
                writer: handed_over(self@.writer),
                stage: MarkdownStageView::Ended,
                ..self@
            }),
            r.1@ == MarkdownStepView::End(Ok(self@.writer.out)),
    {
        let mut run = self;
        run.stage = MarkdownStage::Ended;
        let text = run.writer.take_text();
        (run, MarkdownStep::End(Ok(text)))
    }

    /// Looks at the next object.
    fn go_on(self) -> (r: (MarkdownRun, MarkdownStep))
        ensures
            r.0@ == markdown_waits(self@, MarkdownStageView::Object),
            r.1@ == MarkdownStepView::NextObject,
    {
        let mut run = self;
        run.stage = MarkdownStage::Object;
        (run, MarkdownStep::NextObject)
    }
}

/// Goes on with the Markdown of a document, given what came of the last step: the result
/// holds what is to be done next.
pub fn extract_markdown(run: MarkdownRun, input: MarkdownInput) -> (r: (MarkdownRun, MarkdownStep))
    requires
        markdown_expects(run@.stage, input@),
        run@.pages < usize::MAX,
        run@.writer.numbered < u32::MAX,
        run@.writer.saved < u32::MAX,
    ensures
        (r.0@, r.1@) == after_markdown_input(run@, input@),
{
    let mut run = run;
    match input {
        MarkdownInput::Page(None) => run.end(),
        MarkdownInput::Page(Some(Err(why))) => {
            let error = page_text_error(run.pages + 1, run.path.as_str(), why.as_str());
            run.stage = MarkdownStage::Ended;
            (run, MarkdownStep::End(Err(error)))
        },
        MarkdownInput::Page(Some(Ok(text))) => {
            run.pages = run.pages + 1;
            run.writer.begin_page(run.pages, text.as_str());
            if run.with_images {
                run.go_on()
            } else {
                run.stage = MarkdownStage::Page;
                (run, MarkdownStep::NextPage)
            }
        },
        MarkdownInput::Object(None) => run.end_page(),
        MarkdownInput::Object(Some(read)) => {
            if wants_object(&run.options, read).is_some() {
                run.stage = MarkdownStage::Encoding;
                (run, MarkdownStep::Encode)
            } else {
                run.go_on()
            }
        },
        MarkdownInput::Encoded(false) => run.go_on(),
        MarkdownInput::Encoded(true) => {
            let name = run.writer.number_image();
            run.stage = MarkdownStage::Saving(name.clone());
            (run, MarkdownStep::Save(name))
        },
        MarkdownInput::Saved(false) => run.go_on(),
        MarkdownInput::Saved(true) => {
            let MarkdownRun { mut writer, options, with_images, path, pages, stage } = run;
            let enough = match &stage {
                MarkdownStage::Saving(name) => writer.image_saved(name.as_str()),
                _ => false,
            };
            let next = MarkdownRun { writer, options, with_images, path, pages, stage };
            if enough {
                next.end_page()
            } else {
                next.go_on()
            }
        },
    }
}

/// The run after several inputs.
pub open spec fn markdown_after(run: MarkdownRunView, inputs: Seq<MarkdownInputView>) -> (
    MarkdownRunView,
    MarkdownStepView,
)
    decreases inputs.len(),
{
    if inputs.len() == 0 {
        (run, MarkdownStepView::NextPage)
    } else {
        after_markdown_input(markdown_after(run, inputs.drop_last()).0, inputs.last())
    }
}

/// Pages one after the other, each with a heading that holds its number.
pub open spec fn pages_text(texts: Seq<Seq<char>>) -> Seq<char>
    decreases texts.len(),
{
    if texts.len() == 0 {
        Seq::empty()
    } else {
        let gap = if texts.len() == 1 {
            Seq::empty()
        } else {
            "\n\n"@
        };
        pages_text(texts.drop_last()) + gap + "## Page "@ + digits(texts.len()) + "\n\n"@
            + texts.last() + "\n"@
    }
}

/// The inputs of a document whose pages have those texts.
pub open spec fn page_inputs(texts: Seq<Seq<char>>) -> Seq<MarkdownInputView> {
    texts.map_values(|t: Seq<char>| MarkdownInputView::Page(Some(Ok(t))))
}

/// A document whose images are left alone becomes its pages one after the other.
proof fn lemma_pages(begun: MarkdownRunView, texts: Seq<Seq<char>>)
    requires
        !begun.with_images,
        begun.stage == MarkdownStageView::Page,
        begun.pages == 0,
        begun.writer.out.len() == 0,
    ensures
        ({
            let run = markdown_after(begun, page_inputs(texts)).0;
            &&& run.writer.out == pages_text(texts)
            &&& run.pages == texts.len()
            &&& run.stage == MarkdownStageView::Page
            &&& !run.with_images
            &&& texts.len() > 0 ==> run.writer.out.len() > 0
        }),
    decreases texts.len(),
{
    let inputs = page_inputs(texts);
    if texts.len() == 0 {
        assert(begun.writer.out =~= pages_text(texts));
    } else {
        let rest = texts.drop_last();
        lemma_pages(begun, rest);
        assert(inputs.drop_last() =~= page_inputs(rest));
        let run = markdown_after(begun, page_inputs(rest)).0;
        let next = after_markdown_input(run, inputs.last()).0;
        assert(inputs.last() == MarkdownInputView::Page(Some(Ok(texts.last()))));
        assert(next.writer == with_page(run.writer, run.pages + 1, texts.last()));
        assert(next.writer.out =~= pages_text(texts));
        reveal_strlit("\n");
        assert(next.writer.out.len() > 0);
    }
}

/// A document whose images are left alone becomes its pages one after the other, each under
/// a heading that holds its number.
pub proof fn law_document_reads_in_order(
    path: Seq<char>,
    prefix: Seq<char>,
    options: ExtractOptions,
    texts: Seq<Seq<char>>,
)
    ensures
        markdown_after(
            markdown_begins(path, prefix, false, options),
            page_inputs(texts).push(MarkdownInputView::Page(None)),
        ).1 == MarkdownStepView::End(Ok(pages_text(texts))),
{
    let begun = markdown_begins(path, prefix, false, options);
    let inputs = page_inputs(texts).push(MarkdownInputView::Page(None));
    lemma_pages(begun, texts);
    assert(inputs.drop_last() =~= page_inputs(texts));
}

/// Whether no more images were written than the options allow, of which the first is always
/// allowed.
pub open spec fn is_within_limit(run: MarkdownRunView) -> bool {
    &&& run.writer.max_images == run.options.max_images
    &&& run.writer.saved <= 1 || run.writer.saved <= run.writer.max_images
    &&& run.stage !is Ended ==> run.writer.saved == 0 || run.writer.saved
        < run.writer.max_images
}

/// A run does not write more images than the options allow.
pub proof fn law_markdown_images_are_limited(run: MarkdownRunView, input: MarkdownInputView)
    requires
        is_within_limit(run),
        markdown_expects(run.stage, input),
    ensures
        is_within_limit(after_markdown_input(run, input).0),
{
}

/// What to do next for the images of a document.
#[derive(Debug)]
pub enum ImagesStep {
    /// Turn to the next page.
    NextPage,
    /// Look at the next object of the page.
    NextObject,
    /// Encode the image that was looked at.
    Encode,
    /// Nothing: these are the images.
    End(Vec<ExtractedImage>),
}

/// What came of it.
#[derive(Debug)]
pub enum ImagesInput {
    /// Whether there was one more page.
    Page(bool),
    /// What the object is; nothing after the last one of the page.
    Object(Option<ObjectRead>),
    /// The bytes of a PNG file and their digest; nothing where the image cannot be encoded.
    Encoded(Option<(Vec<u8>, String)>),
}

/// Where a run for images is: what it waits for.
#[derive(Debug, Clone, Copy)]
pub enum ImagesStage {
    Page,
    Object,
    Encoding { width: u32, height: u32 },
    Saving { width: u32, height: u32 },
    Ended,
}

#[verifier::ext_equal]
pub enum ImagesStepView {
    NextPage,
    NextObject,
    Encode,
    End(Seq<ImageView>),
}

#[verifier::ext_equal]
pub enum ImagesInputView {
    Page(bool),
    Object(Option<ObjectRead>),
    Encoded(Option<(Seq<u8>, Seq<char>)>),
}

impl View for ImagesStep {
    type V = ImagesStepView;

    open spec fn view(&self) -> ImagesStepView {
        match self {
            ImagesStep::NextPage => ImagesStepView::NextPage,
            ImagesStep::NextObject => ImagesStepView::NextObject,
            ImagesStep::Encode => ImagesStepView::Encode,
            ImagesStep::End(images) => ImagesStepView::End(image_views(images@)),
        }
    }
}

impl View for ImagesInput {
    type V = ImagesInputView;

    open spec fn view(&self) -> ImagesInputView {
        match self {
            ImagesInput::Page(more) => ImagesInputView::Page(*more),
            ImagesInput::Object(read) => ImagesInputView::Object(*read),
            ImagesInput::Encoded(None) => ImagesInputView::Encoded(None),
            ImagesInput::Encoded(Some((png, sha256))) => ImagesInputView::Encoded(
                Some((png@, sha256@)),
            ),
        }
    }
}

/// A run that takes the images of a document out.
#[verifier::ext_equal]
pub struct ImagesRunView {
    /// The images so far.
    pub images: Seq<ImageView>,
    /// Which images are taken out.
    pub options: ExtractOptions,
    /// How many pages were turned to.
    pub pages: nat,
    /// What the run waits for.
    pub stage: ImagesStage,
}

/// Whether the run waits for such an input.
pub open spec fn images_expect(stage: ImagesStage, input: ImagesInputView) -> bool {
    match stage {
        ImagesStage::Page => input is Page,
        ImagesStage::Object => input is Object,
        ImagesStage::Encoding { .. } => input is Encoded,
        _ => false,
    }
}

/// What a run for images does next after it looked at an object, if anything: where it is
/// then, and whether the object is encoded.
pub open spec fn stage_after_object(
    options: ExtractOptions,
    read: Option<ObjectRead>,
) -> ImagesStage {
    match read {
        None => ImagesStage::Page,
        Some(read) => match wanted_size(options, read) {
            Some((width, height)) => ImagesStage::Encoding { width, height },
            None => ImagesStage::Object,
        },
    }
}

/// What follows an input.
pub open spec fn after_images_input(run: ImagesRunView, input: ImagesInputView) -> (
    ImagesRunView,
    ImagesStepView,
) {
    match input {
        ImagesInputView::Page(true) => (
            ImagesRunView { pages: run.pages + 1, stage: ImagesStage::Object, ..run },
            ImagesStepView::NextObject,
        ),
        ImagesInputView::Page(false) => (
            ImagesRunView { images: Seq::empty(), stage: ImagesStage::Ended, ..run },
            ImagesStepView::End(run.images),
        ),
        ImagesInputView::Object(read) => {
            let stage = stage_after_object(run.options, read);
            (
                ImagesRunView { stage, ..run },
                match stage {
                    ImagesStage::Page => ImagesStepView::NextPage,
                    ImagesStage::Object => ImagesStepView::NextObject,
                    _ => ImagesStepView::Encode,
                },
            )
        },
        ImagesInputView::Encoded(None) => (
            ImagesRunView { stage: ImagesStage::Object, ..run },
            ImagesStepView::NextObject,
        ),
        ImagesInputView::Encoded(Some((png, sha256))) => {
            let images = run.images.push(
                ImageView {
                    index: (run.images.len() + 1) as u32,
                    mime_type: "image/png"@,
                    page: Some(run.pages as u32),
                    width: run.stage->Encoding_width,
                    height: run.stage->Encoding_height,
                    data_base64: base64_of(png),
                    sha256,
                },
            );
            if images.len() >= run.options.max_images {
                (
                    ImagesRunView { images: Seq::empty(), stage: ImagesStage::Ended, ..run },
                    ImagesStepView::End(images),
                )
            } else {
                (
                    ImagesRunView { images, stage: ImagesStage::Object, ..run },
                    ImagesStepView::NextObject,
                )
            }
        },
    }
}

/// A run that takes the images of a document out.
#[derive(Debug)]
pub struct ImagesRun {
    collector: ImageCollector,
    options: ExtractOptions,
    pages: u32,
    stage: ImagesStage,
}

impl View for ImagesRun {
    type V = ImagesRunView;

    closed spec fn view(&self) -> ImagesRunView {
        ImagesRunView {
            images: self.collector.collected(),
            options: self.options,
            pages: self.pages as nat,
            stage: self.stage,
        }
    }
}

/// Which stage a run for images comes to after it looked at an object.
fn next_stage(options: &ExtractOptions, read: Option<ObjectRead>) -> (r: ImagesStage)
    ensures
        r == stage_after_object(*options, read),
{
    match read {
        None => ImagesStage::Page,
        Some(read) => match wants_object(options, read) {
            Some((width, height)) => ImagesStage::Encoding { width, height },
            None => ImagesStage::Object,
        },
    }
}

impl ImagesRun {
    /// The collector stops where the options say.
    #[verifier::type_invariant]
    closed spec fn agrees(&self) -> bool {
        self.collector.limit() == self.options.max_images
    }

    /// A run that begins, and the first thing to do.
    pub fn new(options: &ExtractOptions) -> (r: (ImagesRun, ImagesStep))
        ensures
            r.0@ == (ImagesRunView {
                images: Seq::empty(),
                options: *options,
                pages: 0,
                stage: ImagesStage::Page,
            }),
            r.1@ == ImagesStepView::NextPage,
            holds_wanted_images(r.0@),
    {
        let run = ImagesRun {
            collector: ImageCollector::new(options),
            options: *options,
            pages: 0,
            stage: ImagesStage::Page,
        };
        (run, ImagesStep::NextPage)
    }
}

/// Goes on with the images of a document, given what came of the last step: the result holds
/// what is to be done next.
pub fn extract_images(run: ImagesRun, input: ImagesInput) -> (r: (ImagesRun, ImagesStep))
    requires
        images_expect(run@.stage, input@),
        run@.pages < u32::MAX,
        run@.images.len() < u32::MAX,
        match input@ {
            ImagesInputView::Encoded(Some((png, _))) => png.len() <= usize::MAX / 4,
            _ => true,
        },
    ensures
        (r.0@, r.1@) == after_images_input(run@, input@),
{
    proof {
        use_type_invariant(&run);
    }
    let ImagesRun { mut collector, options, mut pages, mut stage } = run;
    match input {
        ImagesInput::Page(true) => {
            pages = pages + 1;
            stage = ImagesStage::Object;
            (ImagesRun { collector, options, pages, stage }, ImagesStep::NextObject)
        },
        ImagesInput::Page(false) => {
            stage = ImagesStage::Ended;
            let images = collector.take_all();
            (ImagesRun { collector, options, pages, stage }, ImagesStep::End(images))
        },
        ImagesInput::Object(read) => {
            stage = next_stage(&options, read);
            let step = match stage {
                ImagesStage::Page => ImagesStep::NextPage,
                ImagesStage::Object => ImagesStep::NextObject,
                _ => ImagesStep::Encode,
            };
            (ImagesRun { collector, options, pages, stage }, step)
        },
        ImagesInput::Encoded(None) => {
            stage = ImagesStage::Object;
            (ImagesRun { collector, options, pages, stage }, ImagesStep::NextObject)
        },
        ImagesInput::Encoded(Some((png, sha256))) => {
            let (width, height): (u32, u32) = match stage {
                ImagesStage::Encoding { width, height } => (width, height),
                _ => (0, 0),
            };
            if collector.add_image(pages, width, height, png.as_slice(), sha256) {
                stage = ImagesStage::Ended;
                let images = collector.take_all();
                (ImagesRun { collector, options, pages, stage }, ImagesStep::End(images))
            } else {
                stage = ImagesStage::Object;
                (ImagesRun { collector, options, pages, stage }, ImagesStep::NextObject)
            }
        },
    }
}

/// Whether the images are large enough, numbered from 1 on, and no more than the options
/// allow, of which the first is always allowed.
pub open spec fn are_wanted(images: Seq<ImageView>, options: ExtractOptions) -> bool {
    &&& forall|i: int|
        0 <= i < images.len() ==> {
            &&& (#[trigger] images[i]).index == i + 1
            &&& is_large_enough(options, images[i].width, images[i].height)
        }
    &&& images.len() <= 1 || images.len() <= options.max_images
}

/// Whether a run holds what it should.
pub open spec fn holds_wanted_images(run: ImagesRunView) -> bool {
    &&& are_wanted(run.images, run.options)
    &&& run.images.len() == 0 || run.images.len() < run.options.max_images
    &&& match run.stage {
        ImagesStage::Encoding { width, height } => is_large_enough(run.options, width, height),
        _ => true,
    }
}

/// A run for images takes out those that are large enough and no others, numbers them from
/// 1 on, and stops where there are enough.
pub proof fn law_images_are_wanted(run: ImagesRunView, input: ImagesInputView)
    requires
        holds_wanted_images(run),
        images_expect(run.stage, input),
        run.images.len() < u32::MAX,
    ensures
        holds_wanted_images(after_images_input(run, input).0),
        after_images_input(run, input).1 matches ImagesStepView::End(images) ==> are_wanted(
            images,
            run.options,
        ),
{
}

/// What to do next to write the images of a document to files.
#[derive(Debug)]
pub enum SavingStep {
    /// Turn to the next page.
    NextPage,
    /// Look at the next object of the page.
    NextObject,
    /// Encode the image that was looked at.
    Encode,
    /// Write the image that was encoded to a file of that name.
    Save(String),
    /// Nothing: these are the images, or what went wrong.
    End(Result<Vec<SavedImage>, ExtractError>),
}

/// A file that an image was written to: its path below the wiki, its absolute path, and the
/// digest of its bytes.
#[derive(Debug)]
pub struct SavedFile {
    pub rel_path: String,
    pub abs_path: String,
    pub sha256: String,
}

/// What came of it.
#[derive(Debug)]
pub enum SavingInput {
    /// Whether there was one more page.
    Page(bool),
    /// What the object is; nothing after the last one of the page.
    Object(Option<ObjectRead>),
    /// Whether the image was encoded.
    Encoded(bool),
    /// The file that the image was written to, or why it was not.
    Saved(Result<SavedFile, String>),
}

#[verifier::ext_equal]
pub enum SavingStepView {
    NextPage,
    NextObject,
    Encode,
    Save(Seq<char>),
    End(Result<Seq<SavedView>, ExtractErrorView>),
}

/// A file that an image was written to, its texts as sequences of characters.
#[verifier::ext_equal]
pub struct SavedFileView {
    pub rel_path: Seq<char>,
    pub abs_path: Seq<char>,
    pub sha256: Seq<char>,
}

#[verifier::ext_equal]
pub enum SavingInputView {
    Page(bool),
    Object(Option<ObjectRead>),
    Encoded(bool),
    Saved(Result<SavedFileView, Seq<char>>),
}

impl View for SavingStep {
    type V = SavingStepView;

    open spec fn view(&self) -> SavingStepView {
        match self {
            SavingStep::NextPage => SavingStepView::NextPage,
            SavingStep::NextObject => SavingStepView::NextObject,
            SavingStep::Encode => SavingStepView::Encode,
            SavingStep::Save(name) => SavingStepView::Save(name@),
            SavingStep::End(Ok(images)) => SavingStepView::End(Ok(saved_views(images@))),
            SavingStep::End(Err(e)) => SavingStepView::End(Err(e@)),
        }
    }
}

impl View for SavingInput {
    type V = SavingInputView;

    open spec fn view(&self) -> SavingInputView {
        match self {
            SavingInput::Page(more) => SavingInputView::Page(*more),
            SavingInput::Object(read) => SavingInputView::Object(*read),
            SavingInput::Encoded(done) => SavingInputView::Encoded(*done),
            SavingInput::Saved(Ok(f)) => SavingInputView::Saved(
                Ok(
                    SavedFileView {
                        rel_path: f.rel_path@,
                        abs_path: f.abs_path@,
                        sha256: f.sha256@,
                    },
                ),
            ),
            SavingInput::Saved(Err(why)) => SavingInputView::Saved(Err(why@)),
        }
    }
}

/// A run that writes the images of a document to files.
#[verifier::ext_equal]
pub struct SavingRunView {
    /// The images so far.
    pub images: Seq<SavedView>,
    /// Which images are taken out.
    pub options: ExtractOptions,
    /// How many pages were turned to.
    pub pages: nat,
    /// What the run waits for.
    pub stage: ImagesStage,
}

/// Whether the run waits for such an input.
pub open spec fn saving_expects(stage: ImagesStage, input: SavingInputView) -> bool {
    match stage {
        ImagesStage::Page => input is Page,
        ImagesStage::Object => input is Object,
        ImagesStage::Encoding { .. } => input is Encoded,
        ImagesStage::Saving { .. } => input is Saved,
        ImagesStage::Ended => false,
    }
}

/// What follows an input.
pub open spec fn after_saving_input(run: SavingRunView, input: SavingInputView) -> (
    SavingRunView,
    SavingStepView,
) {
    match input {
        SavingInputView::Page(true) => (
            SavingRunView { pages: run.pages + 1, stage: ImagesStage::Object, ..run },
            SavingStepView::NextObject,
        ),
        SavingInputView::Page(false) => (
            SavingRunView { images: Seq::empty(), stage: ImagesStage::Ended, ..run },
            SavingStepView::End(Ok(run.images)),
        ),
        SavingInputView::Object(read) => {
            let stage = stage_after_object(run.options, read);
            (
                SavingRunView { stage, ..run },
                match stage {
                    ImagesStage::Page => SavingStepView::NextPage,
                    ImagesStage::Object => SavingStepView::NextObject,
                    _ => SavingStepView::Encode,
                },
            )
        },
        SavingInputView::Encoded(false) => (
            SavingRunView { stage: ImagesStage::Object, ..run },
            SavingStepView::NextObject,
        ),
        SavingInputView::Encoded(true) => (
            SavingRunView {
                stage: ImagesStage::Saving {
                    width: run.stage->Encoding_width,
                    height: run.stage->Encoding_height,
                },
                ..run
            },
            SavingStepView::Save(image_name(run.images.len() + 1)),
        ),
        SavingInputView::Saved(Err(why)) => (
            SavingRunView { stage: ImagesStage::Ended, ..run },
            SavingStepView::End(Err(ExtractErrorView::Io(why))),
        ),
        SavingInputView::Saved(Ok(f)) => {
            let images = run.images.push(
                SavedView {
                    index: (run.images.len() + 1) as u32,
                    mime_type: "image/png"@,
                    page: Some(run.pages as u32),
                    width: run.stage->Saving_width,
                    height: run.stage->Saving_height,
                    rel_path: f.rel_path,
                    abs_path: f.abs_path,
                    sha256: f.sha256,
                },
            );
            if images.len() >= run.options.max_images {
                (
                    SavingRunView { images: Seq::empty(), stage: ImagesStage::Ended, ..run },
                    SavingStepView::End(Ok(images)),
                )
            } else {
                (
                    SavingRunView { images, stage: ImagesStage::Object, ..run },
                    SavingStepView::NextObject,
                )
            }
        },
    }
}

/// A run that writes the images of a document to files.
#[derive(Debug)]
pub struct SavingRun {
    collector: SavedCollector,
    options: ExtractOptions,
    pages: u32,
    stage: ImagesStage,
}

impl View for SavingRun {
    type V = SavingRunView;

    closed spec fn view(&self) -> SavingRunView {
        SavingRunView {
            images: self.collector.collected(),
            options: self.options,
            pages: self.pages as nat,
            stage: self.stage,
        }
    }
}

impl SavingRun {
    /// The collector stops where the options say.
    #[verifier::type_invariant]
    closed spec fn agrees(&self) -> bool {
        self.collector.limit() == self.options.max_images
    }

    /// A run that begins, and the first thing to do.
    pub fn new(options: &ExtractOptions) -> (r: (SavingRun, SavingStep))
        ensures
            r.0@ == (SavingRunView {
                images: Seq::empty(),
                options: *options,
                pages: 0,
                stage: ImagesStage::Page,
            }),
            r.1@ == SavingStepView::NextPage,
            holds_saved_images(r.0@),
    {
        let run = SavingRun {
            collector: SavedCollector::new(options),
            options: *options,
            pages: 0,
            stage: ImagesStage::Page,
        };
        (run, SavingStep::NextPage)
    }
}

/// Goes on writing the images of a document to files, given what came of the last step: the
/// result holds what is to be done next. A file that cannot be written ends the run.
pub fn extract_and_save_images(run: SavingRun, input: SavingInput) -> (r: (SavingRun, SavingStep))
    requires
        saving_expects(run@.stage, input@),
        run@.pages < u32::MAX,
        run@.images.len() < u32::MAX,
    ensures
        (r.0@, r.1@) == after_saving_input(run@, input@),
{
    proof {
        use_type_invariant(&run);
    }
    let SavingRun { mut collector, options, mut pages, mut stage } = run;
    match input {
        SavingInput::Page(true) => {
            pages = pages + 1;
            stage = ImagesStage::Object;
            (SavingRun { collector, options, pages, stage }, SavingStep::NextObject)
        },
        SavingInput::Page(false) => {
            stage = ImagesStage::Ended;
            let images = collector.take_all();
            (SavingRun { collector, options, pages, stage }, SavingStep::End(Ok(images)))
        },
        SavingInput::Object(read) => {
            stage = next_stage(&options, read);
            let step = match stage {
                ImagesStage::Page => SavingStep::NextPage,
                ImagesStage::Object => SavingStep::NextObject,
                _ => SavingStep::Encode,
            };
            (SavingRun { collector, options, pages, stage }, step)
        },
        SavingInput::Encoded(false) => {
            stage = ImagesStage::Object;
            (SavingRun { collector, options, pages, stage }, SavingStep::NextObject)
        },
        SavingInput::Encoded(true) => {
            let name = collector.next_name();
            match stage {
                ImagesStage::Encoding { width, height } => {
                    stage = ImagesStage::Saving { width, height };
                },
                _ => {},
            }
            (SavingRun { collector, options, pages, stage }, SavingStep::Save(name))
        },
        SavingInput::Saved(Err(why)) => {
            stage = ImagesStage::Ended;
            let step = SavingStep::End(Err(ExtractError::Io(why)));
            (SavingRun { collector, options, pages, stage }, step)
        },
        SavingInput::Saved(Ok(f)) => {
            let SavedFile { rel_path, abs_path, sha256 } = f;
            let (width, height): (u32, u32) = match stage {
                ImagesStage::Saving { width, height } => (width, height),
                _ => (0, 0),
            };
            if collector.add_image(pages, width, height, rel_path, abs_path, sha256) {
                stage = ImagesStage::Ended;
                let images = collector.take_all();
                (SavingRun { collector, options, pages, stage }, SavingStep::End(Ok(images)))
            } else {
                stage = ImagesStage::Object;
                (SavingRun { collector, options, pages, stage }, SavingStep::NextObject)
            }
        },
    }
}

/// Whether the images are large enough, numbered from 1 on, and no more than the options
/// allow, of which the first is always allowed.
pub open spec fn are_saved_as_wanted(images: Seq<SavedView>, options: ExtractOptions) -> bool {
    &&& forall|i: int|
        0 <= i < images.len() ==> {
            &&& (#[trigger] images[i]).index == i + 1
            &&& is_large_enough(options, images[i].width, images[i].height)
        }
    &&& images.len() <= 1 || images.len() <= options.max_images
}

/// Whether a run holds what it should.
pub open spec fn holds_saved_images(run: SavingRunView) -> bool {
    &&& are_saved_as_wanted(run.images, run.options)
    &&& run.stage !is Ended ==> run.images.len() == 0 || run.images.len()
        < run.options.max_images
    &&& match run.stage {
        ImagesStage::Encoding { width, height } => is_large_enough(run.options, width, height),
        ImagesStage::Saving { width, height } => is_large_enough(run.options, width, height),
        _ => true,
    }
}

/// A run that writes images to files takes out those that are large enough and no others,
/// numbers them from 1 on, and stops where there are enough. The file of an image has the
/// number of the image.
pub proof fn law_saved_images_are_wanted(run: SavingRunView, input: SavingInputView)
    requires
        holds_saved_images(run),
        saving_expects(run.stage, input),
        run.images.len() < u32::MAX,
    ensures
        holds_saved_images(after_saving_input(run, input).0),
        after_saving_input(run, input).1 matches SavingStepView::End(Ok(images))
            ==> are_saved_as_wanted(images, run.options),
        after_saving_input(run, input).1 matches SavingStepView::Save(name) ==> name
            == image_name(run.images.len() + 1),
{
}

} // verus!
