//! The page shown in the review, while it is being decoded and after.

use vstd::prelude::*;
use crate::document::{EncodedPage, PageModel};
use crate::messages::{joined, text_option};
use crate::pages::{decodable_size, decode_page, may_fail, may_show};
use crate::raster::RgbRaster;
use crate::rotation::{is_turned, rotate_rgb, turned_size};

verus! {

/// A page in one of its states, as it is shown.
#[derive(Debug, Clone, Copy, PartialEq, Eq, Structural)]
pub struct PageTextureKey {
    pub id: u64,
    pub revision: u64,
    pub quarter_turns: u8,
}

/// What the review knows of the page that it shows. The page is decoded elsewhere; until
/// then its size is known, and a small picture can stand for it.
#[derive(Debug)]
pub struct ReviewPage {
    pub key: Option<PageTextureKey>,
    /// Whether the decoded page is there.
    pub loaded: bool,
    pub width: u32,
    pub height: u32,
    pub load_error: Option<String>,
}

#[verifier::ext_equal]
pub struct ReviewModel {
    pub key: Option<PageTextureKey>,
    pub loaded: bool,
    pub width: u32,
    pub height: u32,
    pub load_error: Option<Seq<char>>,
}

impl View for ReviewPage {
    type V = ReviewModel;

    open spec fn view(&self) -> ReviewModel {
        ReviewModel {
            key: self.key,
            loaded: self.loaded,
            width: self.width,
            height: self.height,
            load_error: text_option(self.load_error),
        }
    }
}

impl ReviewModel {
    /// Nothing is shown.
    pub open spec fn empty() -> ReviewModel {
        ReviewModel { key: None, loaded: false, width: 0, height: 0, load_error: None }
    }

    /// A page is waited for.
    pub open spec fn waiting(key: PageTextureKey, width: u32, height: u32) -> ReviewModel {
        let size = turned_size(width as int, height as int, key.quarter_turns as int);
        ReviewModel {
            key: Some(key),
            loaded: false,
            width: size.0 as u32,
            height: size.1 as u32,
            load_error: None,
        }
    }

    /// A page was decoded, or could not be. Only the page that is shown counts.
    pub open spec fn decoded(
        self,
        key: PageTextureKey,
        outcome: Result<(u32, u32), Seq<char>>,
    ) -> ReviewModel {
        if self.key != Some(key) {
            self
        } else {
            match outcome {
                Ok(size) => ReviewModel { loaded: true, width: size.0, height: size.1, ..self },
                Err(error) => ReviewModel { load_error: Some(error), ..self },
            }
        }
    }
}

pub open spec fn size_outcome(r: Result<(u32, u32), String>) -> Result<(u32, u32), Seq<char>> {
    match r {
        Ok(size) => Ok(size),
        Err(error) => Err(error@),
    }
}

impl Default for ReviewPage {
    fn default() -> (r: ReviewPage)
        ensures
            r@ == ReviewModel::empty(),
    {
        ReviewPage { key: None, loaded: false, width: 0, height: 0, load_error: None }
    }
}

impl ReviewPage {
    /// Shows nothing any more.
    pub fn invalidate(&mut self)
        ensures
            final(self)@ == ReviewModel::empty(),
    {
        self.key = None;
        self.loaded = false;
        self.width = 0;
        self.height = 0;
        self.load_error = None;
    }

    /// Turns to a page. Says whether it has to be decoded: it is not the one shown already.
    pub fn ensure_page(&mut self, key: PageTextureKey, width: u32, height: u32) -> (r: bool)
        ensures
            r == (old(self)@.key != Some(key)),
            final(self)@ == if r {
                ReviewModel::waiting(key, width, height)
            } else {
                old(self)@
            },
    {
        let shown: bool = match self.key {
            Some(current) => current == key,
            None => false,
        };
        if shown {
            return false;
        }
        self.key = Some(key);
        self.loaded = false;
        if key.quarter_turns % 2 == 1 {
            self.width = height;
            self.height = width;
        } else {
            self.width = width;
            self.height = height;
        }
        self.load_error = None;
        true
    }

    /// Takes in a decoded page, or the reason why there is none. What comes for another page
    /// is ignored.
    pub fn take_decoded(&mut self, key: PageTextureKey, outcome: Result<(u32, u32), String>)
        ensures
            final(self)@ == old(self)@.decoded(key, size_outcome(outcome)),
    {
        let shown: bool = match self.key {
            Some(current) => current == key,
            None => false,
        };
        if shown {
            match outcome {
                Ok((width, height)) => {
                    self.loaded = true;
                    self.width = width;
                    self.height = height;
                },
                Err(error) => {
                    self.load_error = Some(error);
                },
            }
        }
    }

    /// What is written where the page would be, while there is neither the page nor a
    /// picture that stands for it.
    pub fn missing_text(&self) -> (r: String)
        ensures
            r@ == match self@.load_error {
                Some(error) => error,
                None => "Przygotowywanie pełnego podglądu…"@,
            },
    {
        match &self.load_error {
            Some(error) => error.clone(),
            None => "Przygotowywanie pełnego podglądu…".to_owned(),
        }
    }

    /// Whether it is said that the page is still being decoded.
    pub fn says_loading(&self) -> (r: bool)
        ensures
            r == (!self@.loaded && self@.load_error is None),
    {
        !self.loaded && self.load_error.is_none()
    }
}

/// Whether a picture is a page as it is shown: decoded and turned.
pub open spec fn is_shown(page: PageModel, turns: u8, r: RgbRaster) -> bool {
    exists|image: RgbRaster| #[trigger]
        may_show(page, image) && is_turned(
            image.pixels@,
            image.width as int,
            image.height as int,
            turns as int,
            r.pixels@,
            r.width as int,
            r.height as int,
        )
}

/// Whether a message says why a page cannot be shown.
pub open spec fn is_preview_failure(page: PageModel, message: Seq<char>) -> bool {
    exists|error: Seq<char>| #[trigger]
        may_fail(page, error) && message == "Nie można otworzyć pełnego podglądu: "@ + error
}

/// Turns what decoding a page gave as it is shown.
pub fn show_decoded(decoded: Result<RgbRaster, String>, quarter_turns: u8) -> (r: Result<
    RgbRaster,
    String,
>)
    requires
        decoded matches Ok(image) ==> image.wf(),
    ensures
        match decoded {
            Ok(image) => r matches Ok(shown) && shown.wf() && is_turned(
                image.pixels@,
                image.width as int,
                image.height as int,
                quarter_turns as int,
                shown.pixels@,
                shown.width as int,
                shown.height as int,
            ),
            Err(error) => r matches Err(message) && message@
                == "Nie można otworzyć pełnego podglądu: "@ + error@,
        },
{
    match decoded {
        Ok(image) => Ok(rotate_rgb(&image, quarter_turns)),
        Err(error) => Err(joined("Nie można otworzyć pełnego podglądu: ", error.as_str())),
    }
}

/// Decodes a page and turns it as it is shown.
pub fn decode_full_page(page: &EncodedPage, key: PageTextureKey) -> (r: Result<RgbRaster, String>)
    requires
        decodable_size(page@),
    ensures
        match r {
            Ok(image) => image.wf() && is_shown(page@, key.quarter_turns, image),
            Err(message) => is_preview_failure(page@, message@),
        },
{
    let decoded: Result<RgbRaster, String> = decode_page(page);
    proof {
        if decoded is Ok {
            assert(may_show(page@, decoded->Ok_0));
        } else {
            assert(may_fail(page@, decoded->Err_0@));
        }
    }
    show_decoded(decoded, key.quarter_turns)
}

/// A page that was asked for is shown whatever comes for others meanwhile.
pub proof fn law_late_pages_are_ignored(
    key: PageTextureKey,
    other: PageTextureKey,
    width: u32,
    height: u32,
    outcome: Result<(u32, u32), Seq<char>>,
)
    requires
        other != key,
    ensures
        ReviewModel::waiting(key, width, height).decoded(other, outcome) == ReviewModel::waiting(
            key,
            width,
            height,
        ),
{
}

} // verus!
