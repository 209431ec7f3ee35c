//! The display pages of the device and the status it reports.

use vstd::prelude::*;
use vstd::std_specs::convert::TryFromSpec;
use vstd::std_specs::convert::TryFromSpecImpl;
use crate::error::DriverError;

verus! {

/// One of the device's selectable screens. On the wire a page is its ordinal.
#[derive(Debug, Clone, Copy, PartialEq, Eq, Structural)]
pub enum EpdPage {
    Overview,
    AppScreen,
    UserImage,
}

impl EpdPage {
    /// The ordinal that stands for the page on the wire.
    pub open spec fn ordinal(self) -> u8 {
        match self {
            EpdPage::Overview => 0,
            EpdPage::AppScreen => 1,
            EpdPage::UserImage => 2,
        }
    }

    /// The page that an ordinal stands for, if any.
    pub open spec fn of_ordinal(value: u8) -> Option<EpdPage> {
        if value == 0 {
            Some(EpdPage::Overview)
        } else if value == 1 {
            Some(EpdPage::AppScreen)
        } else if value == 2 {
            Some(EpdPage::UserImage)
        } else {
            None
        }
    }
}

impl TryFrom<EpdPage> for u8 {
    type Error = DriverError;

    fn try_from(page: EpdPage) -> (res: Result<u8, DriverError>) {
        match page {
            EpdPage::Overview => Ok(0),
            EpdPage::AppScreen => Ok(1),
            EpdPage::UserImage => Ok(2),
        }
    }
}

impl TryFromSpecImpl<EpdPage> for u8 {
    open spec fn obeys_try_from_spec() -> bool {
        true
    }

    open spec fn try_from_spec(page: EpdPage) -> Result<u8, DriverError> {
        Ok(page.ordinal())
    }
}

impl TryFrom<u8> for EpdPage {
    type Error = DriverError;

    fn try_from(value: u8) -> (res: Result<EpdPage, DriverError>) {
        if value == 0 {
            Ok(EpdPage::Overview)
        } else if value == 1 {
            Ok(EpdPage::AppScreen)
        } else if value == 2 {
            Ok(EpdPage::UserImage)
        } else {
            Err(DriverError::InvalidField(value))
        }
    }
}

impl TryFromSpecImpl<u8> for EpdPage {
    open spec fn obeys_try_from_spec() -> bool {
        true
    }

    open spec fn try_from_spec(value: u8) -> Result<EpdPage, DriverError> {
        match EpdPage::of_ordinal(value) {
            Some(page) => Ok(page),
            None => Err(DriverError::InvalidField(value)),
        }
    }
}

/// What the device reports of itself.
#[derive(Debug, Clone, Copy, PartialEq, Eq, Structural)]
pub struct DeviceStatus {
    pub current_epd_page: EpdPage,
}

/// A page's ordinal decodes to that page: encoding and then decoding a page
/// gives the page back.
pub proof fn lemma_page_roundtrip(page: EpdPage)
    ensures
        <u8 as TryFromSpec<EpdPage>>::try_from_spec(page) == Ok::<u8, DriverError>(page.ordinal()),
        <EpdPage as TryFromSpec<u8>>::try_from_spec(page.ordinal()) == Ok::<EpdPage, DriverError>(
            page,
        ),
        page.ordinal() <= 2,
{
}

/// A byte that is no page's ordinal, which is any byte above 2, is refused as
/// an invalid field, and the refusal names the byte.
pub proof fn lemma_page_out_of_range(value: u8)
    requires
        value > 2,
    ensures
        <EpdPage as TryFromSpec<u8>>::try_from_spec(value) == Err::<EpdPage, DriverError>(
            DriverError::InvalidField(value),
        ),
{
}

} // verus!
