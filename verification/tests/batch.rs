use zpl_gen_for_library::batch::Batch;
use zpl_gen_for_library::generator::generate_zpl;
use zpl_gen_for_library::range::RangeSource;
use zpl_gen_for_library::TagData;

fn indices(batch: &Batch) -> Vec<usize> {
    batch.documents().iter().map(|doc| doc.index()).collect()
}

#[test]
fn render_takes_a_full_chunk() {
    let source = RangeSource::counted(5000000, 25).unwrap();
    let batch = Batch::render(&source, 0, 20);
    assert_eq!(batch.len(), 20);
    assert_eq!(indices(&batch), (0..20).collect::<Vec<_>>());
    for (i, doc) in batch.documents().iter().enumerate() {
        assert_eq!(doc.data(), generate_zpl(5000000 + i as u32));
    }
}

#[test]
fn render_takes_what_is_left() {
    let source = RangeSource::counted(5000000, 25).unwrap();
    let batch = Batch::render(&source, 20, 20);
    assert_eq!(indices(&batch), vec![20, 21, 22, 23, 24]);
    assert_eq!(batch.documents()[0].data(), generate_zpl(5000020));
    assert_eq!(batch.documents()[4].data(), generate_zpl(5000024));
}

#[test]
fn render_past_the_end_is_empty() {
    let source = RangeSource::counted(5000000, 25).unwrap();
    assert_eq!(Batch::render(&source, 25, 20).len(), 0);
    assert_eq!(Batch::render(&source, 26, 20).len(), 0);
    assert_eq!(Batch::render(&source, usize::MAX, usize::MAX).len(), 0);
}

#[test]
fn render_of_an_empty_run_is_empty() {
    let source = RangeSource::counted(5000000, 0).unwrap();
    assert_eq!(Batch::render(&source, 0, 20).len(), 0);
}

#[test]
fn chunk_of_zero_leaves_one_document_to_a_batch() {
    let source = RangeSource::counted(10, 3).unwrap();
    assert_eq!(indices(&Batch::render(&source, 0, 0)), vec![0]);
    assert_eq!(indices(&Batch::render(&source, 2, 0)), vec![2]);
}

#[test]
fn render_follows_a_list() {
    let source = RangeSource::reprint(b"5000001\nabc\n5000003\n");
    let batch = Batch::render(&source, 0, source.len());
    assert_eq!(indices(&batch), vec![0, 1]);
    assert_eq!(batch.documents()[0].data(), generate_zpl(5000001));
    assert_eq!(batch.documents()[1].data(), generate_zpl(5000003));
}

#[test]
fn a_batch_is_made_of_documents_that_follow_one_another() {
    let docs = vec![
        TagData::new(4, String::from("a")),
        TagData::new(5, String::from("b")),
        TagData::new(6, String::from("c")),
    ];
    let batch = Batch::new(docs).unwrap();
    assert_eq!(indices(&batch), vec![4, 5, 6]);
    let docs = batch.into_documents();
    assert_eq!(docs[2].data(), "c");
}

#[test]
fn a_batch_may_be_empty_or_single() {
    assert_eq!(Batch::new(Vec::new()).unwrap().len(), 0);
    assert_eq!(Batch::new(vec![TagData::new(usize::MAX, String::new())]).unwrap().len(), 1);
}

#[test]
fn a_batch_has_no_gap_and_no_step_back() {
    let gap = vec![TagData::new(1, String::new()), TagData::new(3, String::new())];
    assert!(Batch::new(gap).is_none());
    let twice = vec![TagData::new(1, String::new()), TagData::new(1, String::new())];
    assert!(Batch::new(twice).is_none());
    let back = vec![TagData::new(2, String::new()), TagData::new(1, String::new())];
    assert!(Batch::new(back).is_none());
    let late = vec![
        TagData::new(0, String::new()),
        TagData::new(1, String::new()),
        TagData::new(3, String::new()),
    ];
    assert!(Batch::new(late).is_none());
}
