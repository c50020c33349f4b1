use llm_wiki::extract::{ExtractError, ExtractOptions, ObjectRead};
use llm_wiki::pdf::{
    extract_and_save_images, extract_images, extract_markdown, ImagesInput, ImagesRun, ImagesStep,
    MarkdownInput, MarkdownRun, MarkdownStep, SavedFile, SavingInput, SavingRun, SavingStep,
};
use llm_wiki::picture::{encode_picture, Bitmap, Channels};

/// A page of a document that is kept in memory: its text and the sizes of its images.
struct Page {
    text: Result<&'static str, &'static str>,
    images: Vec<(u32, u32)>,
}

fn page(text: &'static str, images: &[(u32, u32)]) -> Page {
    Page { text: Ok(text), images: images.to_vec() }
}

fn options(max_images: usize) -> ExtractOptions {
    ExtractOptions { min_width: 10, min_height: 10, max_images }
}

fn read(size: Option<&(u32, u32)>) -> Option<ObjectRead> {
    size.map(|s| match *s {
        (0, _) => ObjectRead::NotImage,
        (_, 0) => ObjectRead::Unreadable,
        (width, height) => ObjectRead::Decoded { width, height },
    })
}

/// The Markdown of a document, and the files that were asked for. Those in `broken` cannot
/// be written; images of width 13 cannot be encoded.
fn markdown(
    pages: &[Page],
    with_images: bool,
    max_images: usize,
    broken: &[&str],
) -> (Result<String, ExtractError>, Vec<String>) {
    let (mut run, mut step) = MarkdownRun::new("a.pdf", "media/", with_images, &options(max_images));
    let (mut at, mut object) = (0, 0);
    let mut files = Vec::new();
    loop {
        let input = match step {
            MarkdownStep::NextPage => {
                at += 1;
                object = 0;
                MarkdownInput::Page(pages.get(at - 1).map(|p| {
                    p.text.map(str::to_string).map_err(str::to_string)
                }))
            }
            MarkdownStep::NextObject => {
                object += 1;
                MarkdownInput::Object(read(pages[at - 1].images.get(object - 1)))
            }
            MarkdownStep::Encode => {
                MarkdownInput::Encoded(pages[at - 1].images[object - 1].0 != 13)
            }
            MarkdownStep::Save(name) => {
                let done = !broken.contains(&name.as_str());
                files.push(name);
                MarkdownInput::Saved(done)
            }
            MarkdownStep::End(result) => return (result, files),
        };
        (run, step) = extract_markdown(run, input);
    }
}

#[test]
fn document_without_images_reads_in_order() {
    let pages = [page("one", &[(50, 50)]), page("two", &[]), page("", &[])];
    let (text, files) = markdown(&pages, false, 0, &[]);
    assert_eq!(
        text.unwrap(),
        "## Page 1\n\none\n\n\n## Page 2\n\ntwo\n\n\n## Page 3\n\n\n"
    );
    assert!(files.is_empty());
    assert_eq!(markdown(&[], true, 5, &[]).0.unwrap(), "");
}

#[test]
fn images_follow_the_text_of_their_page() {
    let pages = [
        page("one", &[(0, 0), (50, 0), (50, 9), (13, 50), (50, 50), (60, 60)]),
        page("two", &[(70, 70)]),
        page("three", &[]),
    ];
    let (text, files) = markdown(&pages, true, 9, &["img-2.png"]);
    assert_eq!(
        text.unwrap(),
        "## Page 1\n\none\n\n![](media/img-1.png)\n\n\n\
         ## Page 2\n\ntwo\n\n![](media/img-3.png)\n\n\n\
         ## Page 3\n\nthree\n"
    );
    assert_eq!(files, ["img-1.png", "img-2.png", "img-3.png"]);
}

#[test]
fn document_ends_where_there_are_enough_images() {
    let pages = [page("one", &[(50, 50), (60, 60), (70, 70)]), page("two", &[(80, 80)])];
    let (text, files) = markdown(&pages, true, 2, &[]);
    assert_eq!(
        text.unwrap(),
        "## Page 1\n\none\n\n![](media/img-1.png)\n![](media/img-2.png)\n"
    );
    assert_eq!(files.len(), 2);
    let (text, files) = markdown(&pages, true, 0, &[]);
    assert_eq!(text.unwrap(), "## Page 1\n\none\n\n![](media/img-1.png)\n");
    assert_eq!(files.len(), 1);
}

#[test]
fn page_without_readable_text_ends_the_document() {
    let pages = [page("one", &[]), Page { text: Err("bad glyph"), images: vec![] }];
    match markdown(&pages, true, 2, &[]).0 {
        Err(ExtractError::Pdfium(s)) => {
            assert_eq!(s, "Page 2 text extraction failed in 'a.pdf': bad glyph")
        }
        other => panic!("unexpected {other:?}"),
    }
}

#[test]
fn wanted_images_are_taken_out() {
    let pages = [page("", &[(0, 0), (20, 30)]), page("", &[(9, 99), (13, 20), (40, 50), (60, 70)])];
    let take = |max: usize| {
        let (mut run, mut step) = ImagesRun::new(&options(max));
        let (mut at, mut object) = (0, 0);
        loop {
            let input = match step {
                ImagesStep::NextPage => {
                    at += 1;
                    object = 0;
                    ImagesInput::Page(at <= pages.len())
                }
                ImagesStep::NextObject => {
                    object += 1;
                    ImagesInput::Object(read(pages[at - 1].images.get(object - 1)))
                }
                ImagesStep::Encode => {
                    let width = pages[at - 1].images[object - 1].0;
                    let encoded = (b"Man".to_vec(), format!("sha-{width}"));
                    ImagesInput::Encoded(if width == 13 { None } else { Some(encoded) })
                }
                ImagesStep::End(images) => return images,
            };
            (run, step) = extract_images(run, input);
        }
    };
    let all = take(10);
    let seen: Vec<_> = all.iter().map(|i| (i.index, i.page, i.width, i.height)).collect();
    assert_eq!(seen, [(1, Some(1), 20, 30), (2, Some(2), 40, 50), (3, Some(2), 60, 70)]);
    assert_eq!((all[0].data_base64.as_str(), all[0].sha256.as_str()), ("TWFu", "sha-20"));
    assert_eq!(take(2).len(), 2);
    assert_eq!(take(0).len(), 1);
}

#[test]
fn wanted_images_are_written_to_files() {
    let pages = [page("", &[(20, 30), (13, 40)]), page("", &[(40, 50)])];
    let save = |broken: &str| {
        let (mut run, mut step) = SavingRun::new(&options(10));
        let (mut at, mut object) = (0, 0);
        loop {
            let input = match step {
                SavingStep::NextPage => {
                    at += 1;
                    object = 0;
                    SavingInput::Page(at <= pages.len())
                }
                SavingStep::NextObject => {
                    object += 1;
                    SavingInput::Object(read(pages[at - 1].images.get(object - 1)))
                }
                SavingStep::Encode => {
                    SavingInput::Encoded(pages[at - 1].images[object - 1].0 != 13)
                }
                SavingStep::Save(name) if name == broken => {
                    SavingInput::Saved(Err("disk full".to_string()))
                }
                SavingStep::Save(name) => SavingInput::Saved(Ok(SavedFile {
                    abs_path: format!("/wiki/{name}"),
                    rel_path: name,
                    sha256: "d".to_string(),
                })),
                SavingStep::End(result) => return result,
            };
            (run, step) = extract_and_save_images(run, input);
        }
    };
    let images = save("").unwrap();
    let seen: Vec<_> = images.iter().map(|i| (i.index, i.page, i.abs_path.as_str())).collect();
    assert_eq!(seen, [(1, Some(1), "/wiki/img-1.png"), (2, Some(2), "/wiki/img-2.png")]);
    match save("img-2.png") {
        Err(ExtractError::Io(s)) => assert_eq!(s, "disk full"),
        other => panic!("unexpected {other:?}"),
    }
}

#[test]
fn images_and_saved_images_agree() {
    let sizes = [[(20, 30), (13, 40), (5, 5)], [(40, 50), (60, 70), (0, 0)]];
    let image_inputs = |max: usize| {
        let (mut run, mut step) = ImagesRun::new(&options(max));
        let (mut at, mut object) = (0, 0);
        loop {
            let input = match step {
                ImagesStep::NextPage => {
                    at += 1;
                    object = 0;
                    ImagesInput::Page(at <= sizes.len())
                }
                ImagesStep::NextObject => {
                    object += 1;
                    ImagesInput::Object(read(sizes[at - 1].get(object - 1)))
                }
                ImagesStep::Encode => {
                    let width = sizes[at - 1][object - 1].0;
                    let encoded = (vec![1, 2], format!("sha-{width}"));
                    ImagesInput::Encoded(if width == 13 { None } else { Some(encoded) })
                }
                ImagesStep::End(images) => return images,
            };
            (run, step) = extract_images(run, input);
        }
    };
    let saving_inputs = |max: usize| {
        let (mut run, mut step) = SavingRun::new(&options(max));
        let (mut at, mut object) = (0, 0);
        loop {
            let input = match step {
                SavingStep::NextPage => {
                    at += 1;
                    object = 0;
                    SavingInput::Page(at <= sizes.len())
                }
                SavingStep::NextObject => {
                    object += 1;
                    SavingInput::Object(read(sizes[at - 1].get(object - 1)))
                }
                SavingStep::Encode => SavingInput::Encoded(sizes[at - 1][object - 1].0 != 13),
                SavingStep::Save(name) => SavingInput::Saved(Ok(SavedFile {
                    abs_path: format!("/w/{name}"),
                    rel_path: name,
                    sha256: format!("sha-{}", sizes[at - 1][object - 1].0),
                })),
                SavingStep::End(result) => return result.unwrap(),
            };
            (run, step) = extract_and_save_images(run, input);
        }
    };
    for (max, expected) in [(0, 1), (2, 2), (9, 3)] {
        let images = image_inputs(max);
        let saved = saving_inputs(max);
        assert_eq!((images.len(), saved.len()), (expected, expected));
        for (k, (i, s)) in images.iter().zip(&saved).enumerate() {
            assert_eq!((i.index, s.index), (k as u32 + 1, k as u32 + 1));
            assert_eq!((&i.mime_type, i.page), (&s.mime_type, s.page));
            assert_eq!((i.width, i.height), (s.width, s.height));
            assert_eq!(i.sha256, s.sha256);
            assert_eq!(s.rel_path, format!("img-{}.png", k + 1));
        }
    }
}

#[test]
fn pictures_become_files_that_hold_them() {
    let rgba: Vec<u8> = (0..2 * 3 * 4).collect();
    let bitmap = |width, height, channels, pixels: &[u8]| Bitmap {
        width,
        height,
        channels,
        pixels: pixels.to_vec(),
    };
    let png = encode_picture(&bitmap(2, 3, Channels::Rgba, &rgba)).unwrap();
    assert_eq!(&png[..8], b"\x89PNG\r\n\x1a\n");
    assert_eq!(&png[12..24], b"IHDR\0\0\0\x02\0\0\0\x03");
    let read = image::load_from_memory(&png).unwrap();
    assert_eq!((read.width(), read.height()), (2, 3));
    assert_eq!(read.as_bytes(), rgba);
    let gray = encode_picture(&bitmap(2, 1, Channels::Gray, &[7, 200])).unwrap();
    let read = image::load_from_memory(&gray).unwrap();
    assert_eq!(read.color(), image::ColorType::L8);
    assert_eq!(read.as_bytes(), [7, 200]);
    assert!(encode_picture(&bitmap(2, 3, Channels::Rgba, &rgba[1..])).is_none());
    assert!(encode_picture(&bitmap(2, 1, Channels::Gray, &[1, 2, 3])).is_none());
    assert!(encode_picture(&bitmap(0, 0, Channels::Gray, &[])).is_none());
    assert!(encode_picture(&bitmap(u32::MAX, u32::MAX, Channels::Rgba, &[])).is_none());
}
