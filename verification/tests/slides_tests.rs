use viewer::slides::{plan_slides, pptx_outline, pptx_slide_files, render_odp, slide_header, slide_num, SlidePlan};
use viewer::xml::{extract_runs, strip_tags, unescape};

fn header(n: usize) -> String {
    format!("\x1b[38;5;11;1m\u{2500}\u{2500} Slide {} \u{2500}\u{2500}\x1b[0m", n)
}

#[test]
fn slide_numbers() {
    assert_eq!(slide_num("ppt/slides/slide1.xml"), 1);
    assert_eq!(slide_num("ppt/slides/slide12.xml"), 12);
    assert_eq!(slide_num("ppt/slides/slide.xml"), 0);
    assert_eq!(slide_num("ppt/slides/slideX.xml"), 0);
    assert_eq!(slide_num("ppt/slides/slide+7.xml"), 7);
    assert_eq!(slide_num("ppt/slides/slide4.xml.xml"), 4);
    assert_eq!(slide_num("ppt/slides/slide99999999999.xml"), 0);
    assert_eq!(slide_num("other3.xml"), 0);
}

#[test]
fn slide_headers() {
    assert_eq!(slide_header(1), header(1));
    assert_eq!(slide_header(10), header(10));
}

#[test]
fn slide_files_in_number_order() {
    let listing = "ppt/slides/slide3.xml\nppt/slides/slide1.xml\nppt/slides/slide10.xml\n\
                   ppt/slides/slide2.xml\nppt/slideLayouts/slideLayout1.xml\ndocProps/app.xml\n";
    assert_eq!(
        pptx_slide_files(listing),
        vec![
            "ppt/slides/slide1.xml",
            "ppt/slides/slide2.xml",
            "ppt/slides/slide3.xml",
            "ppt/slides/slide10.xml"
        ]
    );
    // equal numbers keep their listing order
    let listing = "ppt/slides/slideB.xml\nppt/slides/slide1.xml\nppt/slides/slideA.xml\n";
    assert_eq!(
        pptx_slide_files(listing),
        vec!["ppt/slides/slideB.xml", "ppt/slides/slideA.xml", "ppt/slides/slide1.xml"]
    );
}

#[test]
fn plans_for_the_listing() {
    match plan_slides(Err("boom")) {
        SlidePlan::Show(t) => assert_eq!(t, "unzip failed: boom\n(install unzip to view .pptx)"),
        SlidePlan::Read(_) => panic!("expected a notice"),
    }
    match plan_slides(Ok("a.xml\n")) {
        SlidePlan::Show(t) => assert_eq!(t, "(no slides found)"),
        SlidePlan::Read(_) => panic!("expected a notice"),
    }
    match plan_slides(Ok("ppt/slides/slide2.xml\nppt/slides/slide1.xml")) {
        SlidePlan::Read(names) => {
            assert_eq!(names, vec!["ppt/slides/slide1.xml", "ppt/slides/slide2.xml"])
        }
        SlidePlan::Show(_) => panic!("expected slides to read"),
    }
}

#[test]
fn pptx_outline_of_slides() {
    let xmls = vec![
        "<a:p><a:t>Title</a:t></a:p><a:p><a:t>Sub</a:t><a:t>title</a:t></a:p>".to_string(),
        "<a:p><a:t>   </a:t></a:p>".to_string(),
    ];
    let expected = format!("{}\nTitle\nSubtitle\n\n{}\n(no text)\n\n", header(1), header(2));
    assert_eq!(pptx_outline(&xmls), expected);
    assert_eq!(pptx_outline(&vec![]), "");
}

#[test]
fn odp_without_pages_is_plain_text() {
    assert_eq!(render_odp(""), "(could not read content.xml)");
    assert_eq!(
        render_odp("<office:text><text:p>One</text:p><text:p>Two &lt;3</text:p></office:text>"),
        "One\nTwo <3\n"
    );
}

#[test]
fn odp_pages_skip_thumbnails() {
    let xml = "<draw:page-thumbnail/><draw:page a=\"1\"><text:p>  Hi  </text:p></draw:page>";
    assert_eq!(render_odp(xml), format!("{}\nHi\n\n", header(1)));
}

#[test]
fn runs_by_paragraph() {
    let xml = "<a:p><a:r><a:t xml:space=\"preserve\">Hi &amp; bye</a:t></a:r></a:p>\
               <a:p><a:t> </a:t></a:p><a:p><a:t>Two</a:t></a:p>";
    assert_eq!(extract_runs(xml, "a:t", "</a:p>"), "Hi & bye\nTwo");
    assert_eq!(extract_runs("", "a:t", "</a:p>"), "");
    // an empty paragraph marker leaves no whole run in any piece
    assert_eq!(extract_runs("<a:t>x</a:t>", "a:t", ""), "");
    // a run that never closes ends the paragraph's text
    assert_eq!(extract_runs("<a:t>ok</a:t><a:t>cut", "a:t", "</a:p>"), "ok");
    assert_eq!(extract_runs("<text:span>a</text:span> <text:span>b</text:span>|", "text:span", "|"), "ab");
}

#[test]
fn tags_are_stripped() {
    assert_eq!(strip_tags("<p>a &lt;b&gt;</p>"), "a <b>");
    assert_eq!(strip_tags("x > y"), "x  y");
    assert_eq!(strip_tags("no tags"), "no tags");
    assert_eq!(strip_tags("<unclosed"), "");
}

#[test]
fn entities_are_unescaped_in_turn() {
    assert_eq!(unescape("&amp; &lt; &gt; &quot; &apos;"), "& < > \" '");
    assert_eq!(unescape("&amp;lt;"), "<");
    assert_eq!(unescape("&nbsp;"), "&nbsp;");
}
