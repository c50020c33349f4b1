//! What holds of whole runs through a PDF document.
//!
//! A document is given as its pages: the text of each, or why it cannot be read, and its
//! objects. A run is followed until it ends, and is told at each step what the document
//! holds there.

use vstd::prelude::*;

use crate::extract::{
    base64_of, image_name, image_reference, is_large_enough, lines_of, page_text_message,
    wanted_size, with_image, with_references, ExtractErrorView, ExtractOptions, ImageView,
    ObjectRead, SavedView,
};
use crate::pdf::{
    after_images_input, after_markdown_input, after_saving_input, is_within_limit,
    markdown_begins, ImagesInputView, ImagesRunView, ImagesStage, ImagesStepView,
    MarkdownInputView, MarkdownRunView, MarkdownStageView, MarkdownStepView, SavedFileView,
    SavingInputView, SavingRunView, SavingStepView,
};
use crate::text::{digits, just, strip_back};

verus! {

/// An object of a page: what it turns out to be, and the bytes of a PNG file and their digest
/// where it can be encoded.
#[verifier::ext_equal]
pub struct ObjectView {
    pub read: ObjectRead,
    pub png: Option<(Seq<u8>, Seq<char>)>,
}

/// A page of a document.
#[verifier::ext_equal]
pub struct PageView {
    pub text: Result<Seq<char>, Seq<char>>,
    pub objects: Seq<ObjectView>,
}

/// An image of a document that is wanted and can be encoded: the number of its page, its
/// size, its bytes and their digest.
#[verifier::ext_equal]
pub struct Picture {
    pub page: nat,
    pub width: u32,
    pub height: u32,
    pub png: Seq<u8>,
    pub sha256: Seq<char>,
}

/// Whether an object is an image that is wanted and can be encoded.
pub open spec fn is_taken(object: ObjectView, options: ExtractOptions) -> bool {
    wanted_size(options, object.read) is Some && object.png is Some
}

/// The image that an object is.
pub open spec fn picture_of(object: ObjectView, options: ExtractOptions, page: nat) -> Picture {
    Picture {
        page,
        width: (wanted_size(options, object.read)->0).0,
        height: (wanted_size(options, object.read)->0).1,
        png: (object.png->0).0,
        sha256: (object.png->0).1,
    }
}

/// The images of a document from an object of a page on, in the order of the document. Pages
/// are counted from 1.
pub open spec fn pictures_from(
    doc: Seq<PageView>,
    options: ExtractOptions,
    page: nat,
    object: nat,
) -> Seq<Picture>
    decreases doc.len() + 1 - page, doc[page - 1].objects.len() - object,
{
    if page == 0 || page > doc.len() {
        Seq::empty()
    } else {
        let objects = doc[page - 1].objects;
        if object >= objects.len() {
            pictures_from(doc, options, page + 1, 0)
        } else if is_taken(objects[object as int], options) {
            seq![picture_of(objects[object as int], options, page)] + pictures_from(
                doc,
                options,
                page,
                object + 1,
            )
        } else {
            pictures_from(doc, options, page, object + 1)
        }
    }
}

/// After how many images a document is left: the first is always taken.
pub open spec fn limit_of(options: ExtractOptions) -> nat {
    if options.max_images == 0 {
        1
    } else {
        options.max_images as nat
    }
}

/// The first images, no more than so many.
pub open spec fn at_most(pictures: Seq<Picture>, count: int) -> Seq<Picture> {
    if pictures.len() <= count {
        pictures
    } else {
        pictures.take(count)
    }
}

/// The images as they are handed over, numbered after the first `before`.
pub open spec fn numbered(pictures: Seq<Picture>, before: nat) -> Seq<ImageView> {
    Seq::new(
        pictures.len(),
        |i: int|
            ImageView {
                index: (before + i + 1) as u32,
                mime_type: "image/png"@,
                page: Some(pictures[i].page as u32),
                width: pictures[i].width,
                height: pictures[i].height,
                data_base64: base64_of(pictures[i].png),
                sha256: pictures[i].sha256,
            },
    )
}

/// How much of the document is left: pages, objects of the page, and whether an object is
/// being worked on.
pub open spec fn pages_left(doc: Seq<PageView>, pages: nat) -> nat {
    if pages <= doc.len() {
        (doc.len() - pages) as nat
    } else {
        0
    }
}

pub open spec fn objects_left(doc: Seq<PageView>, pages: nat, object: nat, in_page: bool) -> nat {
    if in_page {
        let n = doc[pages - 1].objects.len();
        if object <= n {
            (n - object + 1) as nat
        } else {
            1
        }
    } else {
        0
    }
}

/// What the object at that place of the page turns out to be; nothing after the last one.
pub open spec fn object_at(doc: Seq<PageView>, pages: nat, object: nat) -> Option<ObjectRead> {
    let objects = doc[pages - 1].objects;
    if object < objects.len() {
        Some(objects[object as int].read)
    } else {
        None
    }
}

/// What a run for images comes to, followed from where it is. `object` is the place of the
/// next object in the page.
pub open spec fn images_walk(run: ImagesRunView, doc: Seq<PageView>, object: nat) -> Seq<
    ImageView,
>
    decreases
        pages_left(doc, run.pages),
        objects_left(doc, run.pages, object, !(run.stage is Page)),
        (if run.stage is Object {
            0nat
        } else {
            1nat
        }),
{
    match run.stage {
        ImagesStage::Page => {
            let (next, step) = after_images_input(
                run,
                ImagesInputView::Page(run.pages < doc.len()),
            );
            if run.pages < doc.len() {
                images_walk(next, doc, 0)
            } else {
                step->End_0
            }
        },
        ImagesStage::Object => {
            let read = object_at(doc, run.pages, object);
            let next = after_images_input(run, ImagesInputView::Object(read)).0;
            if read is Some {
                images_walk(next, doc, object + 1)
            } else {
                images_walk(next, doc, 0)
            }
        },
        ImagesStage::Encoding { .. } => {
            let (next, step) = after_images_input(
                run,
                ImagesInputView::Encoded(doc[run.pages - 1].objects[object - 1].png),
            );
            match step {
                ImagesStepView::End(images) => images,
                _ => images_walk(next, doc, object),
            }
        },
        _ => Seq::empty(),
    }
}

/// The images that a run takes out of a document.
pub open spec fn images_of(doc: Seq<PageView>, options: ExtractOptions) -> Seq<ImageView> {
    images_walk(
        ImagesRunView { images: Seq::empty(), options, pages: 0, stage: ImagesStage::Page },
        doc,
        0,
    )
}

/// What a run that writes images to files comes to, followed from where it is. `save` says
/// what comes of writing to a file of a name.
pub open spec fn saving_walk(
    run: SavingRunView,
    doc: Seq<PageView>,
    object: nat,
    save: spec_fn(Seq<char>) -> Result<(Seq<char>, Seq<char>), Seq<char>>,
) -> Result<Seq<SavedView>, ExtractErrorView>
    decreases
        pages_left(doc, run.pages),
        objects_left(doc, run.pages, object, !(run.stage is Page)),
        (if run.stage is Object {
            0nat
        } else if run.stage is Saving {
            1nat
        } else {
            2nat
        }),
{
    match run.stage {
        ImagesStage::Page => {
            let (next, step) = after_saving_input(
                run,
                SavingInputView::Page(run.pages < doc.len()),
            );
            if run.pages < doc.len() {
                saving_walk(next, doc, 0, save)
            } else {
                step->End_0
            }
        },
        ImagesStage::Object => {
            let read = object_at(doc, run.pages, object);
            let next = after_saving_input(run, SavingInputView::Object(read)).0;
            if read is Some {
                saving_walk(next, doc, object + 1, save)
            } else {
                saving_walk(next, doc, 0, save)
            }
        },
        ImagesStage::Encoding { .. } => {
            let done = doc[run.pages - 1].objects[object - 1].png is Some;
            let next = after_saving_input(run, SavingInputView::Encoded(done)).0;
            saving_walk(next, doc, object, save)
        },
        ImagesStage::Saving { .. } => {
            let sha256 = (doc[run.pages - 1].objects[object - 1].png->0).1;
            let written = match save(image_name(run.images.len() + 1)) {
                Ok((rel_path, abs_path)) => Ok(SavedFileView { rel_path, abs_path, sha256 }),
                Err(why) => Err(why),
            };
            let (next, step) = after_saving_input(run, SavingInputView::Saved(written));
            match step {
                SavingStepView::End(result) => result,
                _ => saving_walk(next, doc, object, save),
            }
        },
        ImagesStage::Ended => Ok(Seq::empty()),
    }
}

/// The images that a run writes to files, or what went wrong.
pub open spec fn saved_images_of(
    doc: Seq<PageView>,
    options: ExtractOptions,
    save: spec_fn(Seq<char>) -> Result<(Seq<char>, Seq<char>), Seq<char>>,
) -> Result<Seq<SavedView>, ExtractErrorView> {
    saving_walk(
        SavingRunView { images: Seq::empty(), options, pages: 0, stage: ImagesStage::Page },
        doc,
        0,
        save,
    )
}

/// What is left to take is the images from a place on, as far as there is room.
proof fn lemma_images_walk(run: ImagesRunView, doc: Seq<PageView>, object: nat)
    requires
        run.images.len() == 0 || run.images.len() < run.options.max_images,
        match run.stage {
            ImagesStage::Page => run.pages <= doc.len() && object == 0,
            ImagesStage::Object => 1 <= run.pages <= doc.len() && object <= doc[run.pages
                - 1].objects.len(),
            _ => false,
        },
    ensures
        images_walk(run, doc, object) == run.images + numbered(
            at_most(
                match run.stage {
                    ImagesStage::Page => pictures_from(doc, run.options, run.pages + 1, 0),
                    _ => pictures_from(doc, run.options, run.pages, object),
                },
                limit_of(run.options) - run.images.len(),
            ),
            run.images.len(),
        ),
    decreases
        pages_left(doc, run.pages),
        objects_left(doc, run.pages, object, !(run.stage is Page)),
{
    let room = limit_of(run.options) - run.images.len();
    if run.stage is Page {
        let next = after_images_input(run, ImagesInputView::Page(run.pages < doc.len())).0;
        if run.pages < doc.len() {
            lemma_images_walk(next, doc, 0);
        } else {
            assert(run.images + numbered(Seq::empty(), run.images.len()) =~= run.images);
        }
    } else {
        let objects = doc[run.pages - 1].objects;
        let read = object_at(doc, run.pages, object);
        let next = after_images_input(run, ImagesInputView::Object(read)).0;
        if object >= objects.len() {
            assert(pictures_from(doc, run.options, run.pages, object) == pictures_from(
                doc,
                run.options,
                run.pages + 1,
                0,
            ));
            lemma_images_walk(next, doc, 0);
        } else if wanted_size(run.options, objects[object as int].read) is None {
            lemma_images_walk(next, doc, object + 1);
        } else {
            let o = objects[object as int];
            let (then, step) = after_images_input(next, ImagesInputView::Encoded(o.png));
            assert(images_walk(run, doc, object) == images_walk(next, doc, object + 1));
            if o.png is None {
                assert(then =~= run);
                lemma_images_walk(then, doc, object + 1);
            } else {
                let rest = pictures_from(doc, run.options, run.pages, object + 1);
                let first = picture_of(o, run.options, run.pages);
                let all = seq![first] + rest;
                let grown = run.images + numbered(seq![first], run.images.len());
                if step is End {
                    assert(room == 1);
                    assert(at_most(all, room) =~= seq![first]);
                    assert(step->End_0 =~= grown);
                } else {
                    assert(then.images =~= grown);
                    lemma_images_walk(then, doc, object + 1);
                    assert(at_most(all, room) =~= seq![first] + at_most(rest, room - 1));
                    assert(grown + numbered(at_most(rest, room - 1), grown.len())
                        =~= run.images + numbered(at_most(all, room), run.images.len()));
                }
            }
        }
    }
}

/// What comes of writing the image with that number to its file.
pub open spec fn written(
    save: spec_fn(Seq<char>) -> Result<(Seq<char>, Seq<char>), Seq<char>>,
    index: int,
) -> Result<(Seq<char>, Seq<char>), Seq<char>> {
    save(image_name(index as nat))
}

/// The images as they are written to files, numbered after the first `before`.
pub open spec fn numbered_files(
    pictures: Seq<Picture>,
    before: nat,
    save: spec_fn(Seq<char>) -> Result<(Seq<char>, Seq<char>), Seq<char>>,
) -> Seq<SavedView> {
    Seq::new(
        pictures.len(),
        |i: int|
            SavedView {
                index: (before + i + 1) as u32,
                mime_type: "image/png"@,
                page: Some(pictures[i].page as u32),
                width: pictures[i].width,
                height: pictures[i].height,
                rel_path: (written(save, before + i + 1)->Ok_0).0,
                abs_path: (written(save, before + i + 1)->Ok_0).1,
                sha256: pictures[i].sha256,
            },
    )
}

/// Whether that is what writing the images to files comes to, after `before` others: all of
/// them, or what went wrong with the first that cannot be written.
pub open spec fn is_saving_of(
    pictures: Seq<Picture>,
    before: Seq<SavedView>,
    save: spec_fn(Seq<char>) -> Result<(Seq<char>, Seq<char>), Seq<char>>,
    result: Result<Seq<SavedView>, ExtractErrorView>,
) -> bool {
    match result {
        Ok(saved) => {
            &&& saved == before + numbered_files(pictures, before.len(), save)
            &&& forall|k: int|
                before.len() < k <= before.len() + pictures.len() ==> #[trigger] written(
                    save,
                    k,
                ) is Ok
        },
        Err(e) => exists|k: int|
            {
                &&& before.len() < k <= before.len() + pictures.len()
                &&& #[trigger] written(save, k) is Err
                &&& e == ExtractErrorView::Io(written(save, k)->Err_0)
                &&& forall|j: int|
                    before.len() < j < k ==> #[trigger] written(save, j) is Ok
            },
    }
}

/// Writing one more image first.
proof fn lemma_one_more(
    first: Picture,
    rest: Seq<Picture>,
    before: Seq<SavedView>,
    save: spec_fn(Seq<char>) -> Result<(Seq<char>, Seq<char>), Seq<char>>,
    result: Result<Seq<SavedView>, ExtractErrorView>,
)
    requires
        written(save, before.len() + 1int) is Ok,
        is_saving_of(rest, before + numbered_files(seq![first], before.len(), save), save, result),
    ensures
        is_saving_of(seq![first] + rest, before, save, result),
{
    let n = before.len();
    let grown = before + numbered_files(seq![first], n, save);
    if result is Ok {
        assert(grown + numbered_files(rest, grown.len(), save) =~= before + numbered_files(
            seq![first] + rest,
            n,
            save,
        ));
    } else {
        let k = choose|k: int|
            {
                &&& grown.len() < k <= grown.len() + rest.len()
                &&& #[trigger] written(save, k) is Err
                &&& result->Err_0 == ExtractErrorView::Io(written(save, k)->Err_0)
                &&& forall|j: int| grown.len() < j < k ==> #[trigger] written(save, j) is Ok
            };
        assert(written(save, k) is Err);
        assert forall|j: int| n < j < k implies #[trigger] written(save, j) is Ok by {}
    }
}

/// What is left to write is the images from a place on, as far as there is room.
proof fn lemma_saving_walk(
    run: SavingRunView,
    doc: Seq<PageView>,
    object: nat,
    save: spec_fn(Seq<char>) -> Result<(Seq<char>, Seq<char>), Seq<char>>,
)
    requires
        run.images.len() == 0 || run.images.len() < run.options.max_images,
        match run.stage {
            ImagesStage::Page => run.pages <= doc.len() && object == 0,
            ImagesStage::Object => 1 <= run.pages <= doc.len() && object <= doc[run.pages
                - 1].objects.len(),
            _ => false,
        },
    ensures
        is_saving_of(
            at_most(
                match run.stage {
                    ImagesStage::Page => pictures_from(doc, run.options, run.pages + 1, 0),
                    _ => pictures_from(doc, run.options, run.pages, object),
                },
                limit_of(run.options) - run.images.len(),
            ),
            run.images,
            save,
            saving_walk(run, doc, object, save),
        ),
    decreases
        pages_left(doc, run.pages),
        objects_left(doc, run.pages, object, !(run.stage is Page)),
{
    let room = limit_of(run.options) - run.images.len();
    if run.stage is Page {
        let next = after_saving_input(run, SavingInputView::Page(run.pages < doc.len())).0;
        if run.pages < doc.len() {
            lemma_saving_walk(next, doc, 0, save);
        } else {
            assert(run.images + numbered_files(Seq::empty(), run.images.len(), save)
                =~= run.images);
        }
    } else {
        let objects = doc[run.pages - 1].objects;
        let read = object_at(doc, run.pages, object);
        let next = after_saving_input(run, SavingInputView::Object(read)).0;
        if object >= objects.len() {
            assert(pictures_from(doc, run.options, run.pages, object) == pictures_from(
                doc,
                run.options,
                run.pages + 1,
                0,
            ));
            lemma_saving_walk(next, doc, 0, save);
        } else if wanted_size(run.options, objects[object as int].read) is None {
            lemma_saving_walk(next, doc, object + 1, save);
        } else {
            let o = objects[object as int];
            let encoded = after_saving_input(next, SavingInputView::Encoded(o.png is Some)).0;
            assert(saving_walk(run, doc, object, save) == saving_walk(next, doc, object + 1, save));
            assert(saving_walk(next, doc, object + 1, save) == saving_walk(
                encoded,
                doc,
                object + 1,
                save,
            ));
            if o.png is None {
                assert(encoded =~= run);
                lemma_saving_walk(encoded, doc, object + 1, save);
            } else {
                let n = run.images.len();
                let rest = pictures_from(doc, run.options, run.pages, object + 1);
                let first = picture_of(o, run.options, run.pages);
                let all = seq![first] + rest;
                let result = saving_walk(encoded, doc, object + 1, save);
                assert(at_most(all, room).len() >= 1 && at_most(all, room)[0] == first);
                match written(save, n as int + 1) {
                    Err(why) => {
                        assert(result == Err::<Seq<SavedView>, ExtractErrorView>(
                            ExtractErrorView::Io(why),
                        ));
                    },
                    Ok((rel_path, abs_path)) => {
                        let file = SavedFileView { rel_path, abs_path, sha256: first.sha256 };
                        let (then, step) = after_saving_input(
                            encoded,
                            SavingInputView::Saved(Ok(file)),
                        );
                        let grown = run.images + numbered_files(seq![first], n, save);
                        if step is End {
                            assert(room == 1);
                            assert(at_most(all, room) =~= seq![first]);
                            assert(step->End_0->Ok_0 =~= grown);
                            assert(result == step->End_0);
                        } else {
                            assert(then.images =~= grown);
                            assert(result == saving_walk(then, doc, object + 1, save));
                            lemma_saving_walk(then, doc, object + 1, save);
                            lemma_one_more(
                                first,
                                at_most(rest, room - 1),
                                run.images,
                                save,
                                result,
                            );
                            assert(at_most(all, room) =~= seq![first] + at_most(rest, room - 1));
                        }
                    },
                }
            }
        }
    }
}

/// The images come page by page, are of pages of the document, and are as large as wanted.
proof fn lemma_pictures(
    doc: Seq<PageView>,
    options: ExtractOptions,
    page: nat,
    object: nat,
)
    requires
        page >= 1,
    ensures
        ({
            let all = pictures_from(doc, options, page, object);
            &&& forall|i: int|
                0 <= i < all.len() ==> page <= (#[trigger] all[i]).page <= doc.len()
                    && is_large_enough(options, all[i].width, all[i].height)
            &&& forall|i: int, j: int|
                0 <= i <= j < all.len() ==> (#[trigger] all[i]).page <= (#[trigger] all[j]).page
        }),
    decreases doc.len() + 1 - page, doc[page - 1].objects.len() - object,
{
    if page <= doc.len() {
        if object >= doc[page - 1].objects.len() {
            lemma_pictures(doc, options, page + 1, 0);
            assert(pictures_from(doc, options, page, object) == pictures_from(
                doc,
                options,
                page + 1,
                0,
            ));
        } else {
            lemma_pictures(doc, options, page, object + 1);
            let all = pictures_from(doc, options, page, object);
            let rest = pictures_from(doc, options, page, object + 1);
            let o = doc[page - 1].objects[object as int];
            if is_taken(o, options) {
                assert(all == seq![picture_of(o, options, page)] + rest);
                assert forall|i: int| 0 <= i < all.len() implies page <= (#[trigger] all[i]).page
                    <= doc.len() && is_large_enough(options, all[i].width, all[i].height) by {
                    if i > 0 {
                        assert(all[i] == rest[i - 1]);
                    }
                }
                assert forall|i: int, j: int| 0 <= i <= j < all.len() implies (
                #[trigger] all[i]).page <= (#[trigger] all[j]).page by {
                    if i > 0 {
                        assert(all[i] == rest[i - 1] && all[j] == rest[j - 1]);
                    }
                }
            } else {
                assert(all == rest);
            }
        }
    }
}

/// Taking the images of a document out and writing them to files gives the same images: as
/// many, with the same numbers, types, pages, sizes and digests. They are the first images
/// that are wanted and can be encoded, numbered from 1 on, no more than the options allow,
/// of which the first is always allowed. They are at least of the size that is asked for, and
/// come in the order of the pages. Each is written to the file of its number. Writing fails
/// where the file of one of them cannot be written, and not otherwise.
pub proof fn law_images_and_saved_images_agree(
    doc: Seq<PageView>,
    options: ExtractOptions,
    save: spec_fn(Seq<char>) -> Result<(Seq<char>, Seq<char>), Seq<char>>,
)
    requires
        doc.len() < u32::MAX,
        pictures_from(doc, options, 1, 0).len() < u32::MAX,
    ensures
        ({
            let images = images_of(doc, options);
            let wanted = pictures_from(doc, options, 1, 0);
            &&& images.len() == if wanted.len() <= limit_of(options) {
                wanted.len()
            } else {
                limit_of(options)
            }
            &&& forall|i: int|
                0 <= i < images.len() ==> {
                    &&& (#[trigger] images[i]).index == i + 1
                    &&& images[i].page == Some(wanted[i].page as u32)
                    &&& is_large_enough(options, images[i].width, images[i].height)
                    &&& images[i].data_base64 == base64_of(wanted[i].png)
                    &&& images[i].sha256 == wanted[i].sha256
                }
            &&& forall|i: int, j: int|
                0 <= i <= j < images.len() ==> (#[trigger] images[i]).page->0 <= (
                #[trigger] images[j]).page->0
            &&& saved_images_of(doc, options, save) is Err <==> exists|i: int|
                0 < i <= images.len() && (#[trigger] written(save, i)) is Err
            &&& saved_images_of(doc, options, save) matches Ok(saved) ==> {
                &&& saved.len() == images.len()
                &&& forall|i: int|
                    0 <= i < saved.len() ==> {
                        &&& (#[trigger] saved[i]).index == images[i].index
                        &&& saved[i].mime_type == images[i].mime_type
                        &&& saved[i].page == images[i].page
                        &&& saved[i].width == images[i].width
                        &&& saved[i].height == images[i].height
                        &&& saved[i].sha256 == images[i].sha256
                        &&& written(save, i + 1) == Ok::<(Seq<char>, Seq<char>), Seq<char>>(
                            (saved[i].rel_path, saved[i].abs_path),
                        )
                    }
            }
        }),
{
    let wanted = pictures_from(doc, options, 1, 0);
    lemma_pictures(doc, options, 1, 0);
    let none = Seq::<ImageView>::empty();
    lemma_images_walk(
        ImagesRunView { images: none, options, pages: 0, stage: ImagesStage::Page },
        doc,
        0,
    );
    let taken = at_most(wanted, limit_of(options) as int);
    let images = images_of(doc, options);
    assert(images =~= numbered(taken, 0));
    let no_files = Seq::<SavedView>::empty();
    lemma_saving_walk(
        SavingRunView { images: no_files, options, pages: 0, stage: ImagesStage::Page },
        doc,
        0,
        save,
    );
    match saved_images_of(doc, options, save) {
        Ok(saved) => {
            assert(saved =~= numbered_files(taken, 0, save));
            assert forall|i: int| 0 <= i < saved.len() implies written(save, i + 1) == Ok::<
                (Seq<char>, Seq<char>),
                Seq<char>,
            >(((#[trigger] saved[i]).rel_path, saved[i].abs_path)) by {
                assert(written(save, i + 1) is Ok);
            }
        },
        Err(_) => {},
    }
}

/// How many images of a page are wanted and can be encoded, from an object on.
pub open spec fn pictures_on(
    objects: Seq<ObjectView>,
    options: ExtractOptions,
    object: nat,
) -> nat
    decreases objects.len() - object,
{
    if object >= objects.len() {
        0
    } else {
        pictures_on(objects, options, object + 1) + if is_taken(objects[object as int], options) {
            1nat
        } else {
            0nat
        }
    }
}

/// The names of the files that `count` images of a page are written to: they are numbered
/// after `before` others, one that cannot be written keeps its number, and after the one with
/// which there are `max` in all no more are written.
pub open spec fn names_written(
    before: nat,
    count: nat,
    saved: nat,
    max: nat,
    writes: spec_fn(Seq<char>) -> bool,
) -> Seq<Seq<char>>
    decreases count,
{
    if count == 0 {
        Seq::empty()
    } else {
        let name = image_name(before + 1);
        if !writes(name) {
            names_written(before + 1, (count - 1) as nat, saved, max, writes)
        } else if saved + 1 >= max {
            seq![name]
        } else {
            seq![name] + names_written(before + 1, (count - 1) as nat, saved + 1, max, writes)
        }
    }
}

/// The references to the images of those names.
pub open spec fn references_to(prefix: Seq<char>, names: Seq<Seq<char>>) -> Seq<Seq<char>> {
    names.map_values(|name: Seq<char>| image_reference(prefix, name))
}

/// The text of a page: its heading, what it says, and the references to its images.
pub open spec fn page_markdown(page: nat, text: Seq<char>, references: Seq<Seq<char>>) -> Seq<
    char,
> {
    "## Page "@ + digits(page) + "\n\n"@ + text + "\n"@ + if references.len() == 0 {
        Seq::empty()
    } else {
        "\n"@ + lines_of(references)
    }
}

/// The Markdown of a document with its images, from a page on, where `out` is written
/// already, `before` images are numbered and `saved` of them written. After the page with
/// which there are as many images as the options allow, no page follows.
pub open spec fn document_markdown(
    doc: Seq<PageView>,
    path: Seq<char>,
    prefix: Seq<char>,
    options: ExtractOptions,
    writes: spec_fn(Seq<char>) -> bool,
    out: Seq<char>,
    page: nat,
    before: nat,
    saved: nat,
) -> Result<Seq<char>, ExtractErrorView>
    decreases doc.len() + 1 - page,
{
    if page == 0 || page > doc.len() {
        Ok(out)
    } else {
        match doc[page - 1].text {
            Err(why) => Err(ExtractErrorView::Pdfium(page_text_message(page, path, why))),
            Ok(text) => {
                let count = pictures_on(doc[page - 1].objects, options, 0);
                let names = names_written(
                    before,
                    count,
                    saved,
                    options.max_images as nat,
                    writes,
                );
                let gap = if out.len() == 0 {
                    Seq::empty()
                } else {
                    "\n\n"@
                };
                let more = out + gap + page_markdown(page, text, references_to(prefix, names));
                if saved + names.len() >= options.max_images {
                    Ok(more)
                } else {
                    document_markdown(
                        doc,
                        path,
                        prefix,
                        options,
                        writes,
                        more,
                        page + 1,
                        before + count,
                        saved + names.len(),
                    )
                }
            },
        }
    }
}

/// What a run for Markdown comes to, followed from where it is. `object` is the place of the
/// next object in the page, and `writes` says whether a file of a name can be written.
pub open spec fn markdown_walk(
    run: MarkdownRunView,
    doc: Seq<PageView>,
    object: nat,
    writes: spec_fn(Seq<char>) -> bool,
) -> Result<Seq<char>, ExtractErrorView>
    decreases
        pages_left(doc, run.pages),
        objects_left(doc, run.pages, object, !(run.stage is Page)),
        (if run.stage is Object {
            0nat
        } else if run.stage is Saving {
            1nat
        } else {
            2nat
        }),
{
    match run.stage {
        MarkdownStageView::Page => {
            let input = if run.pages < doc.len() {
                Some(doc[run.pages as int].text)
            } else {
                None
            };
            let (next, step) = after_markdown_input(run, MarkdownInputView::Page(input));
            match step {
                MarkdownStepView::End(result) => result,
                _ => markdown_walk(next, doc, 0, writes),
            }
        },
        MarkdownStageView::Object => {
            let read = object_at(doc, run.pages, object);
            let (next, step) = after_markdown_input(run, MarkdownInputView::Object(read));
            match step {
                MarkdownStepView::End(result) => result,
                _ => if read is Some {
                    markdown_walk(next, doc, object + 1, writes)
                } else {
                    markdown_walk(next, doc, 0, writes)
                },
            }
        },
        MarkdownStageView::Encoding => {
            let done = doc[run.pages - 1].objects[object - 1].png is Some;
            let next = after_markdown_input(run, MarkdownInputView::Encoded(done)).0;
            markdown_walk(next, doc, object, writes)
        },
        MarkdownStageView::Saving(name) => {
            let (next, step) = after_markdown_input(run, MarkdownInputView::Saved(writes(name)));
            match step {
                MarkdownStepView::End(result) => result,
                _ => if next.stage is Page {
                    markdown_walk(next, doc, 0, writes)
                } else {
                    markdown_walk(next, doc, object, writes)
                },
            }
        },
        MarkdownStageView::Ended => Ok(Seq::empty()),
    }
}

/// What a page comes to from an object on, and the pages after it.
spec fn markdown_rest(
    run: MarkdownRunView,
    doc: Seq<PageView>,
    object: nat,
    writes: spec_fn(Seq<char>) -> bool,
) -> Result<Seq<char>, ExtractErrorView> {
    let w = run.writer;
    let count = pictures_on(doc[run.pages - 1].objects, run.options, object);
    let names = names_written(w.numbered, count, w.saved, w.max_images, writes);
    let references = w.references + references_to(w.prefix, names);
    let more = w.out + if references.len() == 0 {
        Seq::empty()
    } else {
        "\n"@ + lines_of(references)
    };
    if w.saved + names.len() >= w.max_images {
        Ok(more)
    } else {
        document_markdown(
            doc,
            run.path,
            w.prefix,
            run.options,
            writes,
            more,
            run.pages + 1,
            w.numbered + count,
            w.saved + names.len(),
        )
    }
}

/// A run after an image that was encoded.
spec fn after_picture(run: MarkdownRunView, writes: spec_fn(Seq<char>) -> bool) -> MarkdownRunView {
    let encoding = MarkdownRunView { stage: MarkdownStageView::Encoding, ..run };
    let encoded = after_markdown_input(encoding, MarkdownInputView::Encoded(true)).0;
    let name = image_name(run.writer.numbered + 1);
    after_markdown_input(encoded, MarkdownInputView::Saved(writes(name))).0
}

/// A page that begins comes to what the rest of it says.
proof fn lemma_page_begins(
    run: MarkdownRunView,
    doc: Seq<PageView>,
    text: Seq<char>,
    writes: spec_fn(Seq<char>) -> bool,
)
    requires
        run.with_images,
        run.stage is Page,
        run.pages < doc.len(),
        run.writer.max_images == run.options.max_images,
        run.writer.references.len() == 0,
        doc[run.pages as int].text == Ok::<Seq<char>, Seq<char>>(text),
        ({
            let next = after_markdown_input(run, MarkdownInputView::Page(Some(Ok(text)))).0;
            markdown_walk(next, doc, 0, writes) == markdown_rest(next, doc, 0, writes)
        }),
    ensures
        markdown_walk(run, doc, 0, writes) == document_markdown(
            doc,
            run.path,
            run.writer.prefix,
            run.options,
            writes,
            run.writer.out,
            run.pages + 1,
            run.writer.numbered,
            run.writer.saved,
        ),
{
    let w = run.writer;
    let next = after_markdown_input(run, MarkdownInputView::Page(Some(Ok(text)))).0;
    let page = run.pages + 1;
    let count = pictures_on(doc[page - 1].objects, run.options, 0);
    let names = names_written(w.numbered, count, w.saved, w.max_images, writes);
    let references = references_to(w.prefix, names);
    let gap = if w.out.len() == 0 {
        Seq::empty()
    } else {
        "\n\n"@
    };
    assert(next.writer.references + references =~= references);
    assert(next.writer.out + (if references.len() == 0 {
        Seq::empty()
    } else {
        "\n"@ + lines_of(references)
    }) =~= w.out + gap + page_markdown(page, text, references));
    assert(markdown_walk(run, doc, 0, writes) == markdown_walk(next, doc, 0, writes));
}

/// A page that ends comes to what the pages after it say.
proof fn lemma_page_ends(
    run: MarkdownRunView,
    doc: Seq<PageView>,
    object: nat,
    writes: spec_fn(Seq<char>) -> bool,
)
    requires
        run.stage is Object,
        1 <= run.pages <= doc.len(),
        object >= doc[run.pages - 1].objects.len(),
        ({
            let (next, step) = after_markdown_input(run, MarkdownInputView::Object(None));
            step is End || markdown_walk(next, doc, 0, writes) == document_markdown(
                doc,
                next.path,
                next.writer.prefix,
                next.options,
                writes,
                next.writer.out,
                next.pages + 1,
                next.writer.numbered,
                next.writer.saved,
            )
        }),
    ensures
        markdown_walk(run, doc, object, writes) == markdown_rest(run, doc, object, writes),
{
    let w = run.writer;
    let none = names_written(w.numbered, 0, w.saved, w.max_images, writes);
    assert(w.references + references_to(w.prefix, none) =~= w.references);
    let more = w.out + if w.references.len() == 0 {
        Seq::empty()
    } else {
        "\n"@ + lines_of(w.references)
    };
    assert(with_references(w).out =~= more);
}

/// An image that is wanted comes to what the rest of the page says.
proof fn lemma_picture(
    run: MarkdownRunView,
    doc: Seq<PageView>,
    object: nat,
    writes: spec_fn(Seq<char>) -> bool,
)
    requires
        is_within_limit(run),
        run.stage is Object,
        1 <= run.pages <= doc.len(),
        object < doc[run.pages - 1].objects.len(),
        wanted_size(run.options, doc[run.pages - 1].objects[object as int].read) is Some,
        ({
            let then = if doc[run.pages - 1].objects[object as int].png is None {
                run
            } else {
                after_picture(run, writes)
            };
            then.stage is Object ==> markdown_walk(then, doc, object + 1, writes)
                == markdown_rest(then, doc, object + 1, writes)
        }),
    ensures
        markdown_walk(run, doc, object, writes) == markdown_rest(run, doc, object, writes),
{
    let w = run.writer;
    let objects = doc[run.pages - 1].objects;
    let o = objects[object as int];
    let read = object_at(doc, run.pages, object);
    let next = after_markdown_input(run, MarkdownInputView::Object(read)).0;
    let encoded = after_markdown_input(next, MarkdownInputView::Encoded(o.png is Some)).0;
    assert(markdown_walk(run, doc, object, writes) == markdown_walk(next, doc, object + 1, writes));
    assert(markdown_walk(next, doc, object + 1, writes) == markdown_walk(
        encoded,
        doc,
        object + 1,
        writes,
    ));
    let count = pictures_on(objects, run.options, object + 1);
    if o.png is None {
        assert(encoded =~= run);
        assert(pictures_on(objects, run.options, object) == count);
    } else {
        assert(pictures_on(objects, run.options, object) == count + 1);
        let name = image_name(w.numbered + 1);
        let then = after_picture(run, writes);
        let names = names_written(w.numbered, count + 1, w.saved, w.max_images, writes);
        if !writes(name) {
            assert(names == names_written(w.numbered + 1, count, w.saved, w.max_images, writes));
            assert(markdown_walk(encoded, doc, object + 1, writes) == markdown_walk(
                then,
                doc,
                object + 1,
                writes,
            ));
        } else {
            let one = w.references + references_to(w.prefix, seq![name]);
            assert(one =~= w.references.push(image_reference(w.prefix, name)));
            if w.saved + 1 >= w.max_images {
                assert(names == seq![name]);
                let more = w.out + ("\n"@ + lines_of(one));
                assert(with_references(with_image(w, name)).out =~= more);
            } else {
                let rest = names_written(w.numbered + 1, count, w.saved + 1, w.max_images, writes);
                assert(names == seq![name] + rest);
                assert(one + references_to(w.prefix, rest) =~= w.references + references_to(
                    w.prefix,
                    names,
                ));
                assert(markdown_walk(encoded, doc, object + 1, writes) == markdown_walk(
                    then,
                    doc,
                    object + 1,
                    writes,
                ));
            }
        }
    }
}

/// A run comes to what the rest of the document says.
proof fn lemma_markdown_walk(
    run: MarkdownRunView,
    doc: Seq<PageView>,
    object: nat,
    writes: spec_fn(Seq<char>) -> bool,
)
    requires
        is_within_limit(run),
        run.with_images,
        match run.stage {
            MarkdownStageView::Page => run.pages <= doc.len() && object == 0
                && run.writer.references.len() == 0,
            MarkdownStageView::Object => 1 <= run.pages <= doc.len() && object <= doc[run.pages
                - 1].objects.len(),
            _ => false,
        },
    ensures
        markdown_walk(run, doc, object, writes) == match run.stage {
            MarkdownStageView::Page => document_markdown(
                doc,
                run.path,
                run.writer.prefix,
                run.options,
                writes,
                run.writer.out,
                run.pages + 1,
                run.writer.numbered,
                run.writer.saved,
            ),
            _ => markdown_rest(run, doc, object, writes),
        },
    decreases
        pages_left(doc, run.pages),
        objects_left(doc, run.pages, object, !(run.stage is Page)),
{
    if run.stage is Page {
        if run.pages < doc.len() {
            match doc[run.pages as int].text {
                Err(_) => {},
                Ok(text) => {
                    let input = MarkdownInputView::Page(Some(Ok(text)));
                    lemma_markdown_walk(after_markdown_input(run, input).0, doc, 0, writes);
                    lemma_page_begins(run, doc, text, writes);
                },
            }
        }
    } else {
        let objects = doc[run.pages - 1].objects;
        let read = object_at(doc, run.pages, object);
        let (next, step) = after_markdown_input(run, MarkdownInputView::Object(read));
        if object >= objects.len() {
            if !(step is End) {
                lemma_markdown_walk(next, doc, 0, writes);
            }
            lemma_page_ends(run, doc, object, writes);
        } else if wanted_size(run.options, objects[object as int].read) is None {
            lemma_markdown_walk(next, doc, object + 1, writes);
            assert(next == run);
            assert(pictures_on(objects, run.options, object) == pictures_on(
                objects,
                run.options,
                object + 1,
            ));
        } else {
            let o = objects[object as int];
            if o.png is None {
                lemma_markdown_walk(run, doc, object + 1, writes);
            } else {
                let then = after_picture(run, writes);
                if then.stage is Object {
                    lemma_markdown_walk(then, doc, object + 1, writes);
                }
            }
            lemma_picture(run, doc, object, writes);
        }
    }
}

/// The Markdown of a document with its images: its pages in order, each under a heading that
/// holds its number, each followed by references to those of its images that are wanted and
/// were written. A page whose text cannot be read ends it with an error. Once as many images
/// were written as the options allow, the pages after that are left out.
pub proof fn law_document_with_images(
    doc: Seq<PageView>,
    path: Seq<char>,
    media_url_prefix: Seq<char>,
    options: ExtractOptions,
    writes: spec_fn(Seq<char>) -> bool,
)
    ensures
        markdown_walk(
            markdown_begins(path, media_url_prefix, true, options),
            doc,
            0,
            writes,
        ) == document_markdown(
            doc,
            path,
            strip_back(media_url_prefix, just('/')),
            options,
            writes,
            Seq::empty(),
            1,
            0,
            0,
        ),
{
    lemma_markdown_walk(
        markdown_begins(path, media_url_prefix, true, options),
        doc,
        0,
        writes,
    );
}

} // verus!
