//! Sources of news, papers, podcasts, releases and pages.
use vstd::prelude::*;
use crate::order::Entry;
use crate::time::Timestamp;

pub mod arxiv;
pub mod cases;
pub mod cncf;
pub mod docs;
pub mod huggingface;
pub mod podcast;
pub mod release;
pub mod search;
pub mod tech;

verus! {

/// A piece of news.
#[derive(Debug, Clone)]
pub struct NewsItem {
    pub title: String,
    pub url: String,
    pub source: String,
    pub published: Option<Timestamp>,
    pub description: String,
}

/// A piece of news, by its texts.
pub struct News {
    pub title: Seq<char>,
    pub url: Seq<char>,
    pub source: Seq<char>,
    pub published: Option<Timestamp>,
    pub description: Seq<char>,
}

impl View for NewsItem {
    type V = News;

    open spec fn view(&self) -> News {
        News {
            title: self.title@,
            url: self.url@,
            source: self.source@,
            published: self.published,
            description: self.description@,
        }
    }
}

/// News is told apart by its address and ordered by its publication.
impl Entry for NewsItem {
    open spec fn key(&self) -> Seq<char> {
        self.url@
    }

    open spec fn date(&self) -> Option<Timestamp> {
        self.published
    }

    fn entry_key(&self) -> (r: String) {
        self.url.clone()
    }

    fn entry_date(&self) -> (r: Option<Timestamp>) {
        self.published
    }
}

} // verus!
