//! Presentation adapter: each slide's title placeholder corresponds to a
//! heading, its body placeholder to the bullet list that follows; on export
//! a heading opens a new slide and gathers the blocks up to the next
//! heading.
use vstd::prelude::*;
use crate::ir::{Block, BlockV, Span, SpanV, ListItem, Doc, Warning, block_view, blocks_view,
    doc_view, span_view, spans_view, item_view, items_view};
use crate::mdspec::{render_spans, content_of};
use crate::mdparse::warn_extends;
use crate::inline::render_spans_from;
use crate::chars::{chars_to_string, str_to_chars};

verus! {

/// One slide: a title placeholder and body bullet lines.
#[derive(Debug, PartialEq, Eq)]
pub struct Slide {
    pub title: String,
    pub bullets: Vec<String>,
}

/// An in-memory presentation container.
#[derive(Debug, PartialEq, Eq)]
pub struct Deck {
    pub slides: Vec<Slide>,
}

pub open spec fn slide_view(s: Slide) -> (Seq<char>, Seq<Seq<char>>) {
    (s.title@, s.bullets.deep_view())
}

pub open spec fn slides_view(s: Seq<Slide>) -> Seq<(Seq<char>, Seq<Seq<char>>)> {
    Seq::new(s.len(), |i: int| slide_view(s[i]))
}

/// The blocks one slide imports to: a level-1 heading, then its bullets as
/// a bullet list.
pub open spec fn slide_blocks(sl: (Seq<char>, Seq<Seq<char>>)) -> Seq<BlockV> {
    let head = seq![
        BlockV::Heading { level: 1u8, content: seq![SpanV::Text { text: sl.0 }] },
    ];
    if sl.1.len() == 0 {
        head
    } else {
        head + seq![
            BlockV::BulletList {
                items: Seq::new(sl.1.len(), |i: int|
                    seq![
                        BlockV::Paragraph { content: seq![SpanV::Text { text: sl.1[i] }] },
                    ]),
            },
        ]
    }
}

/// What a whole deck imports to.
pub open spec fn import_deck(slides: Seq<(Seq<char>, Seq<Seq<char>>)>) -> Seq<BlockV>
    decreases slides.len(),
{
    if slides.len() == 0 {
        Seq::empty()
    } else {
        slide_blocks(slides[0]) + import_deck(slides.drop_first())
    }
}

/// The body line one list item contributes: its leading paragraph's text.
pub open spec fn item_text(item: Seq<BlockV>) -> Seq<char> {
    if item.len() > 0 {
        render_spans(content_of(item[0]))
    } else {
        Seq::empty()
    }
}

pub open spec fn bullet_texts(items: Seq<Seq<BlockV>>) -> Seq<Seq<char>> {
    Seq::new(items.len(), |i: int| item_text(items[i]))
}

/// Gathers slides: a heading closes the open slide and starts the next;
/// paragraphs and bullet items fill the open slide's body; other blocks
/// are dropped.
pub open spec fn slides_from(blocks: Seq<BlockV>, title: Seq<char>, body: Seq<Seq<char>>)
    -> Seq<(Seq<char>, Seq<Seq<char>>)>
    decreases blocks.len(),
{
    if blocks.len() == 0 {
        seq![(title, body)]
    } else {
        match blocks[0] {
            BlockV::Heading { level, content } => seq![(title, body)] + slides_from(
                blocks.drop_first(),
                render_spans(content),
                Seq::empty(),
            ),
            BlockV::Paragraph { content } => slides_from(blocks.drop_first(), title, body.push(
                render_spans(content),
            )),
            BlockV::BulletList { items } => slides_from(blocks.drop_first(), title, body
                + bullet_texts(items)),
            _ => slides_from(blocks.drop_first(), title, body),
        }
    }
}

/// What a document exports to: a leading heading titles the first slide,
/// a document with no blocks gives an empty deck.
pub open spec fn export_deck(blocks: Seq<BlockV>) -> Seq<(Seq<char>, Seq<Seq<char>>)> {
    if blocks.len() == 0 {
        Seq::empty()
    } else if blocks[0] is Heading {
        slides_from(blocks.drop_first(), render_spans(content_of(blocks[0])), Seq::empty())
    } else {
        slides_from(blocks, Seq::empty(), Seq::empty())
    }
}

/// Imports a deck as a document.
#[verifier::loop_isolation(false)]
pub fn deck_to_doc(deck: &Deck, warn: &mut Vec<Warning>) -> (r: Doc)
    ensures
        doc_view(r) == import_deck(slides_view(deck.slides@)),
        warn_extends(final(warn)@, old(warn)@),
{
    proof {
        assert(warn@.subrange(0, warn@.len() as int) =~= warn@);
    }
    let mut blocks: Vec<Block> = Vec::new();
    let mut i: usize = 0;
    while i < deck.slides.len()
        invariant
            i <= deck.slides@.len(),
            blocks_view(blocks@) == import_deck(slides_view(deck.slides@).subrange(
                0,
                i as int,
            )),
        decreases deck.slides@.len() - i,
    {
        let ghost pre = blocks@;
        let sl = &deck.slides[i];
        let title_s = chars_to_string(&str_to_chars(sl.title.as_str()));
        let mut tc: Vec<Span> = Vec::new();
        tc.push(Span::Text { text: title_s });
        proof {
            assert(tc@.drop_first() =~= Seq::<Span>::empty());
            assert(spans_view(Seq::<Span>::empty()) =~= Seq::<SpanV>::empty());
            assert(span_view(tc@[0]) == (SpanV::Text { text: sl.title@ }));
            assert(spans_view(tc@) == seq![span_view(tc@[0])] + spans_view(tc@.drop_first()));
            assert(spans_view(tc@) =~~= seq![SpanV::Text { text: sl.title@ }]);
        }
        let heading = Block::Heading { level: 1, content: tc };
        let ghost hv = block_view(heading);
        blocks.push(heading);
        if sl.bullets.len() > 0 {
            let mut items: Vec<ListItem> = Vec::new();
            let mut j: usize = 0;
            while j < sl.bullets.len()
                invariant
                    j <= sl.bullets@.len(),
                    items@.len() == j,
                    forall|k: int| 0 <= k < j ==> #[trigger] item_view(items@[k]) =~~= seq![
                        BlockV::Paragraph {
                            content: seq![SpanV::Text { text: sl.bullets@[k]@ }],
                        },
                    ],
                decreases sl.bullets@.len() - j,
            {
                let line = chars_to_string(&str_to_chars(sl.bullets[j].as_str()));
                let mut pc: Vec<Span> = Vec::new();
                pc.push(Span::Text { text: line });
                proof {
                    assert(pc@.drop_first() =~= Seq::<Span>::empty());
                    assert(spans_view(Seq::<Span>::empty()) =~= Seq::<SpanV>::empty());
                    assert(span_view(pc@[0]) == (SpanV::Text {
                        text: sl.bullets@[j as int]@,
                    }));
                    assert(spans_view(pc@) == seq![span_view(pc@[0])] + spans_view(
                        pc@.drop_first(),
                    ));
                    assert(spans_view(pc@) =~~= seq![
                        SpanV::Text { text: sl.bullets@[j as int]@ },
                    ]);
                }
                let para = Block::Paragraph { content: pc };
                let ghost pv = block_view(para);
                let mut ib: Vec<Block> = Vec::new();
                ib.push(para);
                proof {
                    assert(ib@.drop_first() =~= Seq::<Block>::empty());
                    assert(blocks_view(Seq::<Block>::empty()) =~= Seq::<BlockV>::empty());
                    assert(block_view(ib@[0]) == pv);
                    assert(blocks_view(ib@) == seq![block_view(ib@[0])] + blocks_view(
                        ib@.drop_first(),
                    ));
                    assert(blocks_view(ib@) =~~= seq![pv]);
                }
                items.push(ListItem { blocks: ib });
                j = j + 1;
            }
            let bl = Block::BulletList { items };
            proof {
                crate::ir::lemma_items_view_index(bl->BulletList_items@);
                let sv = slide_view(deck.slides@[i as int]);
                assert forall|k: int| 0 <= k < items_view(bl->BulletList_items@).len() implies
                    items_view(bl->BulletList_items@)[k] == Seq::new(sv.1.len(), |q: int|
                    seq![
                        BlockV::Paragraph { content: seq![SpanV::Text { text: sv.1[q] }] },
                    ])[k] by {
                    assert(item_view(bl->BulletList_items@[k]) =~~= seq![
                        BlockV::Paragraph {
                            content: seq![SpanV::Text { text: sl.bullets@[k]@ }],
                        },
                    ]);
                    assert(sv.1[k] == sl.bullets@[k]@);
                }
                assert(items_view(bl->BulletList_items@) =~~= Seq::new(sv.1.len(), |q: int|
                    seq![
                        BlockV::Paragraph { content: seq![SpanV::Text { text: sv.1[q] }] },
                    ]));
            }
            let ghost bv = block_view(bl);
            blocks.push(bl);
            proof {
                lemma_import_deck_snoc(slides_view(deck.slides@), i as int);
                let two = seq![blocks@[pre.len() as int], blocks@[pre.len() as int + 1]];
                crate::xlsx::lemma_blocks_view_concat(pre, two);
                assert(blocks@ =~= pre + two);
                crate::ir::lemma_blocks_view_index(two);
                assert(block_view(two[0]) == hv);
                assert(block_view(two[1]) == bv);
                assert(blocks_view(two) =~~= seq![hv, bv]);
                assert(slides_view(deck.slides@)[i as int] == slide_view(
                    deck.slides@[i as int],
                ));
                assert(blocks_view(blocks@) =~~= import_deck(slides_view(
                    deck.slides@,
                ).subrange(0, i + 1)));
            }
        } else {
            proof {
                lemma_import_deck_snoc(slides_view(deck.slides@), i as int);
                let one = seq![blocks@[pre.len() as int]];
                crate::xlsx::lemma_blocks_view_concat(pre, one);
                assert(blocks@ =~= pre + one);
                crate::ir::lemma_blocks_view_index(one);
                assert(block_view(one[0]) == hv);
                assert(blocks_view(one) =~~= seq![hv]);
                assert(slides_view(deck.slides@)[i as int] == slide_view(
                    deck.slides@[i as int],
                ));
                assert(blocks_view(blocks@) =~~= import_deck(slides_view(
                    deck.slides@,
                ).subrange(0, i + 1)));
            }
        }
        i = i + 1;
    }
    proof {
        assert(slides_view(deck.slides@).subrange(0, deck.slides@.len() as int) =~= slides_view(
            deck.slides@,
        ));
    }
    Doc { blocks }
}

/// Extending the slide prefix by one appends that slide's blocks.
proof fn lemma_import_deck_snoc(slides: Seq<(Seq<char>, Seq<Seq<char>>)>, i: int)
    requires
        0 <= i < slides.len(),
    ensures
        import_deck(slides.subrange(0, i + 1)) == import_deck(slides.subrange(0, i))
            + slide_blocks(slides[i]),
    decreases i,
{
    if i == 0 {
        assert(slides.subrange(0, 1).drop_first() =~= Seq::<(Seq<char>, Seq<Seq<char>>)>::empty());
        assert(slides.subrange(0, 0) =~= Seq::<(Seq<char>, Seq<Seq<char>>)>::empty());
        assert(slides.subrange(0, 1)[0] == slides[0]);
        assert(import_deck(slides.subrange(0, 1)) =~= import_deck(slides.subrange(0, 0))
            + slide_blocks(slides[0]));
    } else {
        lemma_import_deck_snoc(slides.drop_first(), i - 1);
        assert(slides.subrange(0, i + 1).drop_first() =~= slides.drop_first().subrange(0, i));
        assert(slides.subrange(0, i).drop_first() =~= slides.drop_first().subrange(0, i - 1));
        assert(slides.subrange(0, i + 1)[0] == slides[0]);
        assert(slides.subrange(0, i)[0] == slides[0]);
        assert(slides.drop_first()[i - 1] == slides[i]);
        assert(import_deck(slides.subrange(0, i + 1)) =~= import_deck(slides.subrange(0, i))
            + slide_blocks(slides[i]));
    }
}

/// Exports a document as a deck.
#[verifier::loop_isolation(false)]
pub fn doc_to_deck(d: &Doc, warn: &mut Vec<Warning>) -> (r: Deck)
    ensures
        slides_view(r.slides@) == export_deck(doc_view(*d)),
        warn_extends(final(warn)@, old(warn)@),
{
    proof {
        assert(warn@.subrange(0, warn@.len() as int) =~= warn@);
        crate::ir::lemma_blocks_view_index(d.blocks@);
    }
    if d.blocks.len() == 0 {
        let r: Deck = Deck { slides: Vec::new() };
        proof {
            assert(slides_view(r.slides@) =~= export_deck(doc_view(*d)));
        }
        return r;
    }
    let first_is_heading = match &d.blocks[0] {
        Block::Heading { .. } => true,
        _ => false,
    };
    if first_is_heading {
        let title = match &d.blocks[0] {
            Block::Heading { level, content } => {
                proof {
                    assert(content@.subrange(0, content@.len() as int) =~= content@);
                }
                render_spans_from(content, 0)
            },
            _ => Vec::new(),
        };
        proof {
            assert(d.blocks@.drop_first() =~= d.blocks@.subrange(1, d.blocks@.len() as int));
            assert(blocks_view(d.blocks@).drop_first() =~= blocks_view(d.blocks@.drop_first()));
            assert(title@ == render_spans(content_of(blocks_view(d.blocks@)[0])));
        }
        let body: Vec<String> = Vec::new();
        proof {
            assert(body.deep_view() =~= Seq::<Seq<char>>::empty());
        }
        let slides = slides_exec(&d.blocks, 1, title, body, warn);
        proof {
            assert(slides_view(slides@) == export_deck(doc_view(*d)));
        }
        Deck { slides }
    } else {
        let title: Vec<char> = Vec::new();
        let body: Vec<String> = Vec::new();
        proof {
            assert(d.blocks@.subrange(0, d.blocks@.len() as int) =~= d.blocks@);
            assert(title@ =~= Seq::<char>::empty());
            assert(body.deep_view() =~= Seq::<Seq<char>>::empty());
        }
        let slides = slides_exec(&d.blocks, 0, title, body, warn);
        Deck { slides }
    }
}

/// Walks `blocks[i..]`, carrying the open slide.
#[verifier::loop_isolation(false)]
fn slides_exec(blocks: &Vec<Block>, i: usize, title: Vec<char>, body: Vec<String>,
    warn: &mut Vec<Warning>) -> (r: Vec<Slide>)
    requires
        i <= blocks@.len(),
    ensures
        slides_view(r@) == slides_from(blocks_view(blocks@.subrange(i as int,
            blocks@.len() as int)), title@, body.deep_view()),
        warn_extends(final(warn)@, old(warn)@),
    decreases blocks@.len() - i,
{
    proof {
        assert(warn@.subrange(0, warn@.len() as int) =~= warn@);
    }
    let ghost tail = blocks@.subrange(i as int, blocks@.len() as int);
    proof {
        crate::ir::lemma_blocks_view_index(tail);
    }
    if i == blocks.len() {
        let sl = Slide { title: chars_to_string(&title), bullets: body };
        let ghost sv = slide_view(sl);
        let mut r: Vec<Slide> = Vec::new();
        r.push(sl);
        proof {
            assert(slides_view(r@) =~~= seq![(title@, sv.1)]);
            assert(slides_view(r@) =~~= slides_from(blocks_view(tail), title@,
                sv.1));
        }
        return r;
    }
    proof {
        assert(tail[0] == blocks@[i as int]);
        assert(tail.drop_first() =~= blocks@.subrange(i + 1, blocks@.len() as int));
        assert(blocks_view(tail).drop_first() =~= blocks_view(tail.drop_first()));
    }
    match &blocks[i] {
        Block::Heading { level, content } => {
            proof {
                assert(content@.subrange(0, content@.len() as int) =~= content@);
            }
            let new_title = render_spans_from(content, 0);
            let sl = Slide { title: chars_to_string(&title), bullets: body };
            let ghost sv = slide_view(sl);
            let new_body: Vec<String> = Vec::new();
            let ghost w0 = warn@;
            let rest = slides_exec(blocks, i + 1, new_title, new_body, warn);
            let ghost rv = rest@;
            let mut r = rest;
            r.insert(0, sl);
            proof {
                assert(r@.drop_first() =~= rv);
                assert(slides_view(r@).drop_first() =~= slides_view(rv));
                assert(slides_view(r@)[0] == sv);
                assert(new_body.deep_view() =~= Seq::<Seq<char>>::empty());
                assert(slides_view(r@) =~~= slides_from(blocks_view(tail), title@,
                    sv.1));
            }
            r
        },
        Block::Paragraph { content } => {
            proof {
                assert(content@.subrange(0, content@.len() as int) =~= content@);
            }
            let line = render_spans_from(content, 0);
            let mut body2 = body;
            let ghost b0 = body2.deep_view();
            body2.push(chars_to_string(&line));
            proof {
                assert(body2.deep_view() =~~= b0.push(line@));
            }
            let ghost bodyv = body2.deep_view();
            let r = slides_exec(blocks, i + 1, title, body2, warn);
            proof {
                assert(blocks_view(blocks@.subrange(i + 1, blocks@.len() as int))
                    == blocks_view(tail.drop_first()));
                assert(bodyv == b0.push(line@));
                assert(content_of(blocks_view(tail)[0]) == spans_view(content@));
                assert(slides_from(blocks_view(tail), title@, b0) == slides_from(
                    blocks_view(tail).drop_first(),
                    title@,
                    b0.push(render_spans(content_of(blocks_view(tail)[0]))),
                ));
                assert(slides_view(r@) == slides_from(blocks_view(tail), title@, b0));
            }
            r
        },
        Block::BulletList { items } => {
            let mut body2 = body;
            let ghost b0 = body2.deep_view();
            let mut j: usize = 0;
            while j < items.len()
                invariant
                    j <= items@.len(),
                    body2.deep_view().len() == b0.len() + j,
                    body2.deep_view().subrange(0, b0.len() as int) =~= b0,
                    forall|k: int| 0 <= k < j ==> #[trigger] body2.deep_view()[b0.len() + k]
                        == item_text(item_view(items@[k])),
                decreases items@.len() - j,
            {
                let it = &items[j];
                let line: Vec<char> = if it.blocks.len() > 0 {
                    match &it.blocks[0] {
                        Block::Paragraph { content } => {
                            proof {
                                assert(content@.subrange(0, content@.len() as int)
                                    =~= content@);
                            }
                            render_spans_from(content, 0)
                        },
                        Block::Heading { level, content } => {
                            proof {
                                assert(content@.subrange(0, content@.len() as int)
                                    =~= content@);
                            }
                            render_spans_from(content, 0)
                        },
                        _ => Vec::new(),
                    }
                } else {
                    Vec::new()
                };
                proof {
                    crate::ir::lemma_blocks_view_index(it.blocks@);
                    assert(line@ == item_text(item_view(items@[j as int])));
                }
                let ghost bmid = body2.deep_view();
                body2.push(chars_to_string(&line));
                proof {
                    assert(body2.deep_view() =~~= bmid.push(line@));
                }
                j = j + 1;
            }
            proof {
                crate::ir::lemma_items_view_index(items@);
                let bt = bullet_texts(items_view(items@));
                assert forall|m: int| 0 <= m < body2.deep_view().len() implies
                    body2.deep_view()[m] == (b0 + bt)[m] by {
                    if m < b0.len() {
                        assert(body2.deep_view().subrange(0, b0.len() as int)[m]
                            == body2.deep_view()[m]);
                    } else {
                        let k = m - b0.len();
                        assert(body2.deep_view()[b0.len() + k] == item_text(item_view(
                            items@[k],
                        )));
                        assert(items_view(items@)[k] == item_view(items@[k]));
                        assert(bt[k] == item_text(items_view(items@)[k]));
                    }
                }
                assert(body2.deep_view() =~~= b0 + bt);
            }
            let r = slides_exec(blocks, i + 1, title, body2, warn);
            proof {
                assert(slides_from(blocks_view(tail), title@, b0) == slides_from(
                    blocks_view(tail).drop_first(),
                    title@,
                    b0 + bullet_texts(blocks_view(tail)[0]->BulletList_items),
                ));
                assert(bullet_texts(blocks_view(tail)[0]->BulletList_items) == bullet_texts(
                    items_view(items@),
                ));
                assert(slides_view(r@) == slides_from(blocks_view(tail), title@, b0));
            }
            r
        },
        _ => {
            warn.push(Warning::Dropped);
            proof {
                assert(warn@.subrange(0, old(warn)@.len() as int) =~= old(warn)@);
            }
            let ghost w0 = warn@;
            let r = slides_exec(blocks, i + 1, title, body, warn);
            proof {
                crate::mdparse::lemma_warn_extends_trans(warn@, w0, old(warn)@);
            }
            r
        },
    }
}

} // verus!
