use vstd::prelude::*;

use crate::dom::Window;
use crate::http::HttpResponse;
use crate::dom::dom_view;
use crate::parser::{dom_shape, html_tree, HtmlParser};
use crate::token::HtmlTokenizer;
use crate::utils::{convert_dom_to_string, dump};

verus! {

/// A tab: at most one window, built from the last response received.
#[derive(Debug)]
pub struct Page {
    browser: Option<usize>,
    frame: Option<Window>,
}

impl Page {
    pub fn new() -> (r: Page)
        ensures
            r.frame() is None,
            r.browser() is None,
    {
        Page { browser: None, frame: None }
    }

    /// The handle of the browser that holds this page, if it is held by one.
    pub closed spec fn browser(&self) -> Option<usize> {
        self.browser
    }

    pub fn set_browser(&mut self, browser: usize)
        ensures
            final(self).browser() == Some(browser),
            final(self).frame() == old(self).frame(),
    {
        self.browser = Some(browser);
    }

    pub fn get_browser(&self) -> (r: Option<usize>)
        ensures
            r == self.browser(),
    {
        self.browser
    }

    pub closed spec fn frame(&self) -> Option<Window> {
        self.frame
    }

    /// The window of the last response, if any.
    pub fn window(&self) -> (r: &Option<Window>)
        ensures
            *r == self.frame(),
    {
        &self.frame
    }

    /// Builds a DOM from the body of `response`, keeps it as this page's window, and returns
    /// a dump of it.
    pub fn receive_response(&mut self, response: HttpResponse) -> (r: String)
        requires
            2 * response@.body.len() + 13 < usize::MAX,
        ensures
            final(self).frame() matches Some(w) && dom_shape(w@) && dom_view(w@) == html_tree(response@.body),
            final(self).browser() == old(self).browser(),
            final(self).frame() matches Some(w) && r@ == seq!['\n'] + dump(w@, 0),
    {
        self.create_frame(response.body());
        match &self.frame {
            Some(w) => convert_dom_to_string(w, Some(w.document())),
            None => {
                let mut s = String::new();
                crate::text::push_char(&mut s, '\n');
                s
            },
        }
    }

    fn create_frame(&mut self, html: String)
        requires
            2 * html@.len() + 13 < usize::MAX,
        ensures
            final(self).frame() matches Some(w) && dom_shape(w@) && dom_view(w@) == html_tree(html@),
            final(self).browser() == old(self).browser(),
    {
        let t = HtmlTokenizer::new(html);
        let frame = HtmlParser::new(t).construct_tree();
        self.frame = Some(frame);
    }
}

impl Default for Page {
    fn default() -> (r: Page)
        ensures
            r.frame() is None,
    {
        Page::new()
    }
}

/// Holds the pages; one of them is active.
#[derive(Debug)]
pub struct Browser {
    active_page_index: usize,
    pages: Vec<Page>,
}

impl Browser {
    pub closed spec fn wf(&self) -> bool {
        self.active_page_index < self.pages@.len()
    }

    pub closed spec fn pages(&self) -> Seq<Page> {
        self.pages@
    }

    pub closed spec fn active(&self) -> int {
        self.active_page_index as int
    }

    /// A browser with one empty page, which is active. Pages refer to their browser by a
    /// handle: its index among the host's browsers, 0 for the first.
    pub fn new() -> (r: Browser)
        ensures
            r.wf(),
            r.pages().len() == 1,
            r.active() == 0,
            r.pages()[0].frame() is None,
            r.pages()[0].browser() == Some(0usize),
    {
        let mut page = Page::new();
        page.set_browser(0);
        let mut pages: Vec<Page> = Vec::new();
        pages.push(page);
        Browser { active_page_index: 0, pages }
    }

    pub fn current_page(&self) -> (r: &Page)
        requires
            self.wf(),
        ensures
            *r == self.pages()[self.active()],
    {
        &self.pages[self.active_page_index]
    }
}

} // verus!
