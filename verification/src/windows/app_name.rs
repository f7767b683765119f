//! How an application's name is found out, step by step.

use vstd::prelude::*;
use vstd::string::StringExecFns;

use crate::error;
use crate::error::{XCapError, XCapResult};
use crate::text;
use crate::text_laws;
use crate::windows::process;
use crate::windows::process::{LangCodePage, VERSION_KEYS};
use crate::windows::wide;

verus! {

/// What is to be asked of the system next.
#[derive(Debug)]
pub enum AppNameStep {
    /// Open the process, and answer with [`AppNameQuery::opened`].
    Open,
    /// Query the path of the process's image, and answer with [`AppNameQuery::image_queried`].
    QueryImage,
    /// Get the path of the process's module, and answer with [`AppNameQuery::module_path_read`].
    ReadModulePath,
    /// Get the name of the process's module, and answer with [`AppNameQuery::module_name_read`].
    ReadModuleName,
    /// Get the path of the process's module in place of its name, and answer with
    /// [`AppNameQuery::module_name_replaced`].
    ReplaceModuleName,
    /// Get the size of the version information of the file at a path, and answer with
    /// [`AppNameQuery::sized`].
    Size { path: Vec<u16> },
    /// Get the version information, of this size, and answer with [`AppNameQuery::loaded`].
    Load { size: u32 },
    /// Get the languages of the version information, and answer with [`AppNameQuery::translated`].
    Translate,
    /// Get a value of the version information, and answer with [`AppNameQuery::value_read`].
    ReadValue { query: String },
    /// Nothing: [`AppNameQuery::finish`] tells the name.
    Done,
}

/// How far the query has got.
#[derive(Debug)]
enum Stage {
    Opening,
    QueryingImage,
    ReadingModulePath,
    ReadingModuleName,
    ReplacingModuleName,
    Sizing { path: String, units: Vec<u16> },
    Loading { path: String, size: u32 },
    Translating { path: String },
    ReadingValues { path: String, pages: Vec<LangCodePage>, key: usize, page: usize },
    Found { result: XCapResult<String> },
}

/// How far a query has got.
pub enum AppNameState {
    Opening,
    QueryingImage,
    ReadingModulePath,
    ReadingModuleName,
    ReplacingModuleName,
    Sizing { path: Seq<char>, units: Seq<u16> },
    Loading { path: Seq<char>, size: u32 },
    Translating { path: Seq<char> },
    ReadingValues { path: Seq<char>, pages: Seq<LangCodePage>, key: nat, page: nat },
    Found { result: Result<Seq<char>, error::Failure> },
}

/// What decoding leads to.
pub open spec fn decoded(units: Seq<u16>) -> Result<Seq<char>, error::Failure> {
    match wide::written(units) {
        Some(text) => Ok(text),
        None => Err(error::Failure::Utf16Error),
    }
}

/// Whether a query goes on like this once it has the path of the image, or an error in its place.
/// An empty path is as good as none.
pub open spec fn follows_path(path: Result<Seq<char>, error::Failure>, after: AppNameState) -> bool {
    match path {
        Ok(path) => if path.len() == 0 {
            after == AppNameState::ReadingModuleName
        } else if forall|i: int| !wide::zero_inside(wide::utf16(path), i) {
            after == (AppNameState::Sizing {
                path,
                units: wide::until_zero(wide::utf16(path)).push(0),
            })
        } else {
            exists|i: int|
                #![trigger wide::zero_inside(wide::utf16(path), i)]
                wide::zero_inside(wide::utf16(path), i) && after == (AppNameState::Found {
                    result: Err(
                        error::Failure::Error(
                            "invalid nul value found at position "@ + text::decimal(i),
                        ),
                    ),
                })
        },
        Err(_) => after == AppNameState::ReadingModuleName,
    }
}

/// The error for a process whose image cannot be found.
pub open spec fn no_image_path(last_error: u32) -> error::Failure {
    error::Failure::Error(
        "Get process image path failed: WIN32_ERROR("@ + text::decimal(last_error as int) + ")"@,
    )
}

/// The path of the process's module, where the system has written one.
pub open spec fn path_of_module(units: Seq<u16>, last_error: u32) -> Result<Seq<char>, error::Failure> {
    if units.len() > 0 {
        decoded(units)
    } else {
        Err(no_image_path(last_error))
    }
}

/// Whether a query goes on like this when the version information names nothing.
pub open spec fn follows_values(path: Seq<char>, after: AppNameState) -> bool {
    match after {
        AppNameState::Found { result: Ok(name) } => name.len() > 0 && process::may_be_basename(
            path,
            name,
        ),
        AppNameState::ReadingModuleName => process::may_be_basename(path, Seq::empty()),
        _ => false,
    }
}

/// Whether a query goes on like this when the values from one on are to be read.
pub open spec fn follows_value(
    path: Seq<char>,
    pages: Seq<LangCodePage>,
    key: nat,
    page: nat,
    after: AppNameState,
) -> bool {
    if key + 1 == VERSION_KEYS && page + 1 >= pages.len() {
        follows_values(path, after)
    } else if page + 1 >= pages.len() {
        after == (AppNameState::ReadingValues { path, pages, key: key + 1, page: 0 })
    } else {
        after == (AppNameState::ReadingValues { path, pages, key, page: page + 1 })
    }
}

/// The query for the name of the application that a process runs.
#[derive(Debug)]
pub struct AppNameQuery {
    stage: Stage,
}

impl View for AppNameQuery {
    type V = AppNameState;

    closed spec fn view(&self) -> AppNameState {
        match self.stage {
            Stage::Opening => AppNameState::Opening,
            Stage::QueryingImage => AppNameState::QueryingImage,
            Stage::ReadingModulePath => AppNameState::ReadingModulePath,
            Stage::ReadingModuleName => AppNameState::ReadingModuleName,
            Stage::ReplacingModuleName => AppNameState::ReplacingModuleName,
            Stage::Sizing { path, units } => AppNameState::Sizing { path: path@, units: units@ },
            Stage::Loading { path, size } => AppNameState::Loading { path: path@, size },
            Stage::Translating { path } => AppNameState::Translating { path: path@ },
            Stage::ReadingValues { path, pages, key, page } => AppNameState::ReadingValues {
                path: path@,
                pages: pages@,
                key: key as nat,
                page: page as nat,
            },
            Stage::Found { result } => AppNameState::Found { result: error::text_outcome(result) },
        }
    }
}

impl AppNameState {
    /// Where values are to be read, there is one to be read.
    pub open spec fn well_formed(self) -> bool {
        self matches AppNameState::ReadingValues { pages, key, page, .. } ==> key < VERSION_KEYS
            && page < pages.len()
    }

    /// Whether this is what is to be asked next.
    pub open spec fn asks(self, step: AppNameStep) -> bool {
        match self {
            AppNameState::Opening => step is Open,
            AppNameState::QueryingImage => step is QueryImage,
            AppNameState::ReadingModulePath => step is ReadModulePath,
            AppNameState::ReadingModuleName => step is ReadModuleName,
            AppNameState::ReplacingModuleName => step is ReplaceModuleName,
            AppNameState::Sizing { units, .. } => step matches AppNameStep::Size { path }
                && path@ == units,
            AppNameState::Loading { size, .. } => step == (AppNameStep::Load { size }),
            AppNameState::Translating { .. } => step is Translate,
            AppNameState::ReadingValues { pages, key, page, .. } => {
                step matches AppNameStep::ReadValue { query } && query@
                    == process::version_query_text(pages[page as int], key)
            },
            AppNameState::Found { .. } => step is Done,
        }
    }
}

/// Goes on once the path of the image is known, or an error in its place.
fn stage_for_path(path: XCapResult<String>) -> (stage: Stage)
    ensures
        follows_path(error::text_outcome(path), (AppNameQuery { stage })@),
        (AppNameQuery { stage })@.well_formed(),
{
    match path {
        Ok(path) => {
            if path.as_str().is_empty() {
                return Stage::ReadingModuleName;
            }
            match wide::encode(path.as_str()) {
                Ok(units) => Stage::Sizing { path, units },
                Err(failure) => Stage::Found { result: Err(failure) },
            }
        },
        Err(_) => Stage::ReadingModuleName,
    }
}

/// Goes on where the version information names nothing.
fn stage_for_basename(path: &str) -> (stage: Stage)
    ensures
        follows_values(path@, (AppNameQuery { stage })@),
        (AppNameQuery { stage })@.well_formed(),
{
    let name = process::basename_from_path(path);
    if name.as_str().is_empty() {
        assert(name@ =~= Seq::empty());
        Stage::ReadingModuleName
    } else {
        Stage::Found { result: Ok(name) }
    }
}

impl AppNameQuery {
    /// Sets out to find the name.
    pub fn new() -> (query: AppNameQuery)
        ensures
            query@ == AppNameState::Opening,
            query@.well_formed(),
    {
        AppNameQuery { stage: Stage::Opening }
    }

    /// Says what is to be asked next.
    pub fn step(&self) -> (step: AppNameStep)
        requires
            self@.well_formed(),
        ensures
            self@.asks(step),
    {
        match &self.stage {
            Stage::Opening => AppNameStep::Open,
            Stage::QueryingImage => AppNameStep::QueryImage,
            Stage::ReadingModulePath => AppNameStep::ReadModulePath,
            Stage::ReadingModuleName => AppNameStep::ReadModuleName,
            Stage::ReplacingModuleName => AppNameStep::ReplaceModuleName,
            Stage::Sizing { units, .. } => AppNameStep::Size { path: copy_units(units) },
            Stage::Loading { size, .. } => AppNameStep::Load { size: *size },
            Stage::Translating { .. } => AppNameStep::Translate,
            Stage::ReadingValues { pages, key, page, .. } => AppNameStep::ReadValue {
                query: process::version_query(pages[*page], *key),
            },
            Stage::Found { .. } => AppNameStep::Done,
        }
    }

    /// Takes up whether the process could be opened. One that could not has no name.
    pub fn opened(&mut self, success: bool)
        requires
            old(self)@ is Opening,
        ensures
            final(self)@.well_formed(),
            success ==> final(self)@ == AppNameState::QueryingImage,
            !success ==> final(self)@ == (AppNameState::Found { result: Ok(Seq::empty()) }),
    {
        self.stage = if success {
            Stage::QueryingImage
        } else {
            Stage::Found { result: Ok(String::new()) }
        };
        assert(!success ==> self@->result->Ok_0 =~= Seq::empty());
    }

    /// Takes up the path of the image as the system has written it, none where it has not.
    pub fn image_queried(&mut self, answer: Option<Vec<u16>>)
        requires
            old(self)@ is QueryingImage,
        ensures
            final(self)@.well_formed(),
            match answer {
                Some(units) => if units@.len() > 0 {
                    follows_path(decoded(units@), final(self)@)
                } else {
                    final(self)@ == AppNameState::ReadingModulePath
                },
                None => final(self)@ == AppNameState::ReadingModulePath,
            },
    {
        self.stage = match answer {
            Some(units) => {
                if units.len() > 0 {
                    stage_for_path(wide::decode(units))
                } else {
                    Stage::ReadingModulePath
                }
            },
            None => Stage::ReadingModulePath,
        };
    }

    /// Takes up the path of the module as the system has written it, and the code of the error that
    /// there is where it has written nothing.
    pub fn module_path_read(&mut self, units: Vec<u16>, last_error: u32)
        requires
            old(self)@ is ReadingModulePath,
        ensures
            final(self)@.well_formed(),
            follows_path(path_of_module(units@, last_error), final(self)@),
    {
        self.stage = stage_for_path(image_path_from_module(units, last_error));
    }

    /// Takes up the name of the module as the system has written it, none where it has not.
    pub fn module_name_read(&mut self, answer: Option<Vec<u16>>)
        requires
            old(self)@ is ReadingModuleName,
        ensures
            final(self)@.well_formed(),
            match answer {
                Some(units) => final(self)@ == (AppNameState::Found { result: decoded(units@) }),
                None => final(self)@ == AppNameState::ReplacingModuleName,
            },
    {
        self.stage = match answer {
            Some(units) => Stage::Found { result: wide::decode(units) },
            None => Stage::ReplacingModuleName,
        };
    }

    /// Takes up the path that stands in for the name of the module.
    pub fn module_name_replaced(&mut self, units: Vec<u16>)
        requires
            old(self)@ is ReplacingModuleName,
        ensures
            final(self)@ == (AppNameState::Found { result: decoded(units@) }),
            final(self)@.well_formed(),
    {
        self.stage = Stage::Found { result: wide::decode(units) };
    }

    /// Takes up the size of the version information. A file without any is called as it is named.
    pub fn sized(&mut self, size: u32)
        requires
            old(self)@ is Sizing,
        ensures
            final(self)@.well_formed(),
            size > 0 ==> final(self)@ == (AppNameState::Loading {
                path: old(self)@->Sizing_path,
                size,
            }),
            size == 0 ==> (final(self)@ matches AppNameState::Found { result: Ok(name) }
                && process::may_be_basename(old(self)@->Sizing_path, name)),
    {
        if let Stage::Sizing { path, .. } = &self.stage {
            self.stage = if size == 0 {
                Stage::Found { result: Ok(process::basename_from_path(path.as_str())) }
            } else {
                Stage::Loading { path: path.clone(), size }
            };
        }
    }

    /// Takes up whether the version information is there.
    pub fn loaded(&mut self, answer: XCapResult<()>)
        requires
            old(self)@ is Loading,
        ensures
            final(self)@.well_formed(),
            match answer {
                Ok(_) => final(self)@ == (AppNameState::Translating {
                    path: old(self)@->Loading_path,
                }),
                Err(failure) => final(self)@ == (AppNameState::Found { result: Err(failure@) }),
            },
    {
        if let Stage::Loading { path, .. } = &self.stage {
            self.stage = match answer {
                Ok(_) => Stage::Translating { path: path.clone() },
                Err(failure) => Stage::Found { result: Err(failure) },
            };
        }
    }

    /// Takes up the languages of the version information.
    pub fn translated(&mut self, answer: XCapResult<Vec<LangCodePage>>)
        requires
            old(self)@ is Translating,
        ensures
            final(self)@.well_formed(),
            match answer {
                Ok(pages) => if pages@.len() > 0 {
                    final(self)@ == (AppNameState::ReadingValues {
                        path: old(self)@->Translating_path,
                        pages: pages@,
                        key: 0,
                        page: 0,
                    })
                } else {
                    follows_values(old(self)@->Translating_path, final(self)@)
                },
                Err(failure) => final(self)@ == (AppNameState::Found { result: Err(failure@) }),
            },
    {
        if let Stage::Translating { path } = &self.stage {
            self.stage = match answer {
                Ok(pages) => {
                    if pages.len() > 0 {
                        Stage::ReadingValues { path: path.clone(), pages, key: 0, page: 0 }
                    } else {
                        stage_for_basename(path.as_str())
                    }
                },
                Err(failure) => Stage::Found { result: Err(failure) },
            };
        }
    }

    /// Takes up a value as the system has written it, none where it has not. The first that is more
    /// than white space is the name.
    pub fn value_read(&mut self, answer: Option<Vec<u16>>)
        requires
            old(self)@ is ReadingValues,
            old(self)@.well_formed(),
        ensures
            final(self)@.well_formed(),
            old(self)@ matches AppNameState::ReadingValues { path, pages, key, page } && match answer {
                None => follows_value(path, pages, key, page, final(self)@),
                Some(units) => match wide::written(units@) {
                    None => final(self)@ == (AppNameState::Found {
                        result: Err(error::Failure::Utf16Error),
                    }),
                    Some(text) => if text::trimmed(text).len() > 0 {
                        final(self)@ == (AppNameState::Found { result: Ok(text::trimmed(text)) })
                    } else {
                        follows_value(path, pages, key, page, final(self)@)
                    },
                },
            },
    {
        let found: Option<XCapResult<String>> = match answer {
            None => None,
            Some(units) => match wide::decode(units) {
                Err(failure) => Some(Err(failure)),
                Ok(text) => {
                    let name = text::trim(text.as_str());
                    if name.as_str().is_empty() {
                        None
                    } else {
                        Some(Ok(name))
                    }
                },
            },
        };
        if let Some(result) = found {
            self.stage = Stage::Found { result };
            return;
        }
        let mut exhausted: Option<String> = None;
        if let Stage::ReadingValues { path, pages, key, page } = &mut self.stage {
            let count: usize = pages.len();
            if *page + 1 < count {
                *page = *page + 1;
            } else if *key + 1 < VERSION_KEYS {
                *key = *key + 1;
                *page = 0;
            } else {
                exhausted = Some(path.clone());
            }
        }
        if let Some(path) = exhausted {
            self.stage = stage_for_basename(path.as_str());
        }
    }

    /// The name that was found, or the error that was met.
    pub fn finish(self) -> (result: XCapResult<String>)
        requires
            self@ is Found,
        ensures
            self@ == (AppNameState::Found { result: error::text_outcome(result) }),
    {
        match self.stage {
            Stage::Found { result } => result,
            _ => Ok(String::new()),
        }
    }
}

/// A copy of units.
fn copy_units(units: &Vec<u16>) -> (copy: Vec<u16>)
    ensures
        copy@ == units@,
{
    let mut copy: Vec<u16> = Vec::new();
    let mut i: usize = 0;
    while i < units.len()
        invariant
            i <= units.len(),
            copy@ == units@.take(i as int),
        decreases units.len() - i,
    {
        copy.push(units[i]);
        assert(copy@ =~= units@.take(i + 1));
        i = i + 1;
    }
    assert(copy@ =~= units@);
    copy
}

/// The path of a process's module, and an error where the system has written nothing.
pub fn image_path_from_module(units: Vec<u16>, last_error: u32) -> (result: XCapResult<String>)
    ensures
        error::text_outcome(result) == path_of_module(units@, last_error),
{
    if units.len() > 0 {
        return wide::decode(units);
    }
    let mut message = "Get process image path failed: WIN32_ERROR(".to_owned();
    text::push_count(&mut message, last_error as u64);
    message.append(")");
    Err(XCapError::new(message.as_str()))
}

/// What the system tells of a process and of the file that it runs.
pub struct ProcessWorld {
    pub opens: bool,
    pub image: Option<Seq<u16>>,
    pub module: Seq<u16>,
    pub last_error: u32,
    pub name: Option<Seq<u16>>,
    pub name_replacement: Seq<u16>,
    pub size: u32,
    pub info: Result<(), error::Failure>,
    pub pages: Result<Seq<LangCodePage>, error::Failure>,
    pub value: spec_fn(Seq<char>) -> Option<Seq<u16>>,
}

impl ProcessWorld {
    /// The path of the image, or what was wrong with it.
    pub open spec fn image_path(self) -> Result<Seq<char>, error::Failure> {
        match self.image {
            Some(units) => if units.len() > 0 {
                decoded(units)
            } else {
                path_of_module(self.module, self.last_error)
            },
            None => path_of_module(self.module, self.last_error),
        }
    }

    /// The name of the module, or what was wrong with it.
    pub open spec fn module_name(self) -> Result<Seq<char>, error::Failure> {
        match self.name {
            Some(units) => decoded(units),
            None => decoded(self.name_replacement),
        }
    }

    /// The first value, from a property in a language on, that is more than white space. An error
    /// where one before it is no text.
    pub open spec fn first_value(self, pages: Seq<LangCodePage>, key: nat, page: nat) -> Option<
        Result<Seq<char>, error::Failure>,
    >
        decreases VERSION_KEYS - key, pages.len() - page,
    {
        if key >= VERSION_KEYS {
            None
        } else if page >= pages.len() {
            self.first_value(pages, key + 1, 0)
        } else {
            let rest = self.first_value(pages, key, page + 1);
            match (self.value)(process::version_query_text(pages[page as int], key)) {
                None => rest,
                Some(units) => match wide::written(units) {
                    None => Some(Err(error::Failure::Utf16Error)),
                    Some(text) => if text::trimmed(text).len() > 0 {
                        Some(Ok(text::trimmed(text)))
                    } else {
                        rest
                    },
                },
            }
        }
    }

    /// Whether this may be the name where the version information names nothing.
    pub open spec fn may_be_file_name(
        self,
        path: Seq<char>,
        result: Result<Seq<char>, error::Failure>,
    ) -> bool {
        ||| result matches Ok(name) && name.len() > 0 && process::may_be_basename(path, name)
        ||| process::may_be_basename(path, Seq::empty()) && result == self.module_name()
    }

    /// Whether this may be the name by the version information of the file at a path.
    pub open spec fn may_be_named_by_file(
        self,
        path: Seq<char>,
        result: Result<Seq<char>, error::Failure>,
    ) -> bool {
        if self.size == 0 {
            result matches Ok(name) && process::may_be_basename(path, name)
        } else {
            match (self.info, self.pages) {
                (Err(failure), _) => result == Err::<Seq<char>, error::Failure>(failure),
                (Ok(_), Err(failure)) => result == Err::<Seq<char>, error::Failure>(failure),
                (Ok(_), Ok(pages)) => match self.first_value(pages, 0, 0) {
                    Some(found) => result == found,
                    None => self.may_be_file_name(path, result),
                },
            }
        }
    }

    /// Whether this may be the name. It is the one that the version information of the image gives,
    /// else the name of the file; the name of the module where there is no image; and empty where
    /// the process cannot be opened.
    pub open spec fn may_be_app_name(self, result: Result<Seq<char>, error::Failure>) -> bool {
        if !self.opens {
            result == Ok::<Seq<char>, error::Failure>(Seq::empty())
        } else {
            match self.image_path() {
                Ok(path) => if path.len() > 0 {
                    self.may_be_named_by_file(path, result)
                } else {
                    result == self.module_name()
                },
                Err(_) => result == self.module_name(),
            }
        }
    }

    /// Whether `after` follows `before` when the next step is done as it should be.
    pub open spec fn proceeds(self, before: AppNameState, after: AppNameState) -> bool {
        match before {
            AppNameState::Opening => if self.opens {
                after == AppNameState::QueryingImage
            } else {
                after == (AppNameState::Found { result: Ok(Seq::empty()) })
            },
            AppNameState::QueryingImage => match self.image {
                Some(units) => if units.len() > 0 {
                    follows_path(decoded(units), after)
                } else {
                    after == AppNameState::ReadingModulePath
                },
                None => after == AppNameState::ReadingModulePath,
            },
            AppNameState::ReadingModulePath => follows_path(
                path_of_module(self.module, self.last_error),
                after,
            ),
            AppNameState::ReadingModuleName => match self.name {
                Some(units) => after == (AppNameState::Found { result: decoded(units) }),
                None => after == AppNameState::ReplacingModuleName,
            },
            AppNameState::ReplacingModuleName => after == (AppNameState::Found {
                result: decoded(self.name_replacement),
            }),
            AppNameState::Sizing { path, .. } => if self.size > 0 {
                after == (AppNameState::Loading { path, size: self.size })
            } else {
                after matches AppNameState::Found { result: Ok(name) } && process::may_be_basename(
                    path,
                    name,
                )
            },
            AppNameState::Loading { path, .. } => match self.info {
                Ok(_) => after == (AppNameState::Translating { path }),
                Err(failure) => after == (AppNameState::Found { result: Err(failure) }),
            },
            AppNameState::Translating { path } => match self.pages {
                Ok(pages) => if pages.len() > 0 {
                    after == (AppNameState::ReadingValues { path, pages, key: 0, page: 0 })
                } else {
                    follows_values(path, after)
                },
                Err(failure) => after == (AppNameState::Found { result: Err(failure) }),
            },
            AppNameState::ReadingValues { path, pages, key, page } => {
                match (self.value)(process::version_query_text(pages[page as int], key)) {
                    None => follows_value(path, pages, key, page, after),
                    Some(units) => match wide::written(units) {
                        None => after == (AppNameState::Found {
                            result: Err(error::Failure::Utf16Error),
                        }),
                        Some(text) => if text::trimmed(text).len() > 0 {
                            after == (AppNameState::Found { result: Ok(text::trimmed(text)) })
                        } else {
                            follows_value(path, pages, key, page, after)
                        },
                    },
                }
            },
            AppNameState::Found { .. } => false,
        }
    }

    /// Whether a query that has got so far may come to this.
    spec fn may_come_to(
        self,
        state: AppNameState,
        result: Result<Seq<char>, error::Failure>,
    ) -> bool {
        match state {
            AppNameState::Opening => self.may_be_app_name(result),
            AppNameState::QueryingImage => self.may_be_named(self.image_path(), result),
            AppNameState::ReadingModulePath => self.may_be_named(
                path_of_module(self.module, self.last_error),
                result,
            ),
            AppNameState::ReadingModuleName => result == self.module_name(),
            AppNameState::ReplacingModuleName => result == decoded(self.name_replacement),
            AppNameState::Sizing { path, .. } => self.may_be_named_by_file(path, result),
            AppNameState::Loading { path, .. } => self.size > 0 ==> self.may_be_named_by_file(
                path,
                result,
            ),
            AppNameState::Translating { path } => self.size > 0 && self.info is Ok
                ==> self.may_be_named_by_file(path, result),
            AppNameState::ReadingValues { path, pages, key, page } => match self.first_value(
                pages,
                key,
                page,
            ) {
                Some(found) => result == found,
                None => self.may_be_file_name(path, result),
            },
            AppNameState::Found { result: found } => result == found,
        }
    }

    /// Whether this may be the name when the path of the image is known, or an error in its place.
    spec fn may_be_named(
        self,
        path: Result<Seq<char>, error::Failure>,
        result: Result<Seq<char>, error::Failure>,
    ) -> bool {
        match path {
            Ok(path) => if path.len() > 0 {
                self.may_be_named_by_file(path, result)
            } else {
                result == self.module_name()
            },
            Err(_) => result == self.module_name(),
        }
    }

    proof fn lemma_proceeds(
        self,
        before: AppNameState,
        after: AppNameState,
        result: Result<Seq<char>, error::Failure>,
    )
        requires
            before.well_formed(),
            self.proceeds(before, after),
            self.may_come_to(after, result),
        ensures
            self.may_come_to(before, result),
    {
        reveal_with_fuel(ProcessWorld::first_value, 3);
        match before {
            AppNameState::QueryingImage => {
                if let Some(units) = self.image {
                    lemma_no_zero_inside(units);
                }
            },
            AppNameState::ReadingModulePath => {
                lemma_no_zero_inside(self.module);
            },
            AppNameState::Translating { path } => {
                if let Ok(pages) = self.pages {
                    if pages.len() == 0 {
                        self.lemma_no_pages(pages, 0);
                    }
                }
            },
            _ => {},
        }
    }

    proof fn lemma_no_pages(self, pages: Seq<LangCodePage>, key: nat)
        requires
            pages.len() == 0,
        ensures
            self.first_value(pages, key, 0) is None,
        decreases VERSION_KEYS - key,
    {
        if key < VERSION_KEYS {
            self.lemma_no_pages(pages, key + 1);
        }
    }
}

/// What the system has written holds no zero.
proof fn lemma_no_zero_inside(units: Seq<u16>)
    ensures
        decoded(units) matches Ok(path) ==> forall|i: int|
            !wide::zero_inside(wide::utf16(path), i),
{
    wide::lemma_until_zero_has_none(units);
}

/// A query that is over has come to a name that the application may have, going by what the system
/// tells.
pub proof fn law_app_name(world: ProcessWorld, run: Seq<AppNameState>)
    requires
        run.len() > 0,
        run[0] == AppNameState::Opening,
        forall|i: int| 0 <= i < run.len() ==> (#[trigger] run[i]).well_formed(),
        forall|i: int| 0 <= i < run.len() - 1 ==> world.proceeds(#[trigger] run[i], run[i + 1]),
        run.last() is Found,
    ensures
        world.may_be_app_name(run.last()->result),
{
    lemma_run(world, run, 0);
}

proof fn lemma_run(world: ProcessWorld, run: Seq<AppNameState>, i: int)
    requires
        0 <= i < run.len(),
        forall|i: int| 0 <= i < run.len() ==> (#[trigger] run[i]).well_formed(),
        forall|i: int| 0 <= i < run.len() - 1 ==> world.proceeds(#[trigger] run[i], run[i + 1]),
        run.last() is Found,
    ensures
        world.may_come_to(run[i], run.last()->result),
    decreases run.len() - i,
{
    if i + 1 < run.len() {
        lemma_run(world, run, i + 1);
        assert(world.proceeds(run[i], run[i + 1]));
        assert(run[i].well_formed());
        world.lemma_proceeds(run[i], run[i + 1], run.last()->result);
    }
}

/// How many steps a query takes at most, when there are so many languages.
spec fn steps_left(state: AppNameState, pages: nat) -> int {
    let values = VERSION_KEYS * pages;
    match state {
        AppNameState::Opening => values + 8,
        AppNameState::QueryingImage => values + 7,
        AppNameState::ReadingModulePath => values + 6,
        AppNameState::Sizing { .. } => values + 5,
        AppNameState::Loading { .. } => values + 4,
        AppNameState::Translating { .. } => values + 3,
        AppNameState::ReadingValues { key, page, .. } => 2 + (VERSION_KEYS - key) * pages - page,
        AppNameState::ReadingModuleName => 2,
        AppNameState::ReplacingModuleName => 1,
        AppNameState::Found { .. } => 0,
    }
}

/// Every query comes to an end: it takes a few steps, and at most one for each property in each
/// language.
pub proof fn law_app_name_query_ends(world: ProcessWorld, run: Seq<AppNameState>)
    requires
        run.len() > 0,
        run[0] == AppNameState::Opening,
        forall|i: int| 0 <= i < run.len() ==> (#[trigger] run[i]).well_formed(),
        forall|i: int| 0 <= i < run.len() - 1 ==> world.proceeds(#[trigger] run[i], run[i + 1]),
    ensures
        run.len() <= 9 + VERSION_KEYS * world.page_count(),
{
    lemma_steps(world, run, run.len() - 1);
}

impl ProcessWorld {
    /// How many languages there are.
    pub open spec fn page_count(self) -> nat {
        match self.pages {
            Ok(pages) => pages.len(),
            Err(_) => 0,
        }
    }
}

proof fn lemma_steps(world: ProcessWorld, run: Seq<AppNameState>, i: int)
    requires
        0 <= i < run.len(),
        run[0] == AppNameState::Opening,
        forall|i: int| 0 <= i < run.len() ==> (#[trigger] run[i]).well_formed(),
        forall|i: int| 0 <= i < run.len() - 1 ==> world.proceeds(#[trigger] run[i], run[i + 1]),
    ensures
        i + steps_left(run[i], world.page_count()) <= steps_left(run[0], world.page_count()),
        steps_left(run[i], world.page_count()) >= 0,
        run[i] matches AppNameState::ReadingValues { pages, .. } ==> world.pages == Ok::<
            Seq<LangCodePage>,
            error::Failure,
        >(pages),
    decreases i,
{
    let count = world.page_count() as int;
    assert(VERSION_KEYS * count >= 0) by (nonlinear_arith)
        requires
            count >= 0,
    ;
    if i > 0 {
        lemma_steps(world, run, i - 1);
        assert(world.proceeds(run[i - 1], run[i - 1 + 1]));
        assert(run[i - 1].well_formed());
        if let AppNameState::ReadingValues { key, page, .. } = run[i - 1] {
            assert((VERSION_KEYS - key - 1) * count + count == (VERSION_KEYS - key) * count)
                by (nonlinear_arith);
        }
        assert(run[i].well_formed());
        if let AppNameState::ReadingValues { key, page, .. } = run[i] {
            assert((VERSION_KEYS - key) * count >= count) by (nonlinear_arith)
                requires
                    key < VERSION_KEYS,
                    count >= 0,
            ;
        }
    }
}

/// What the system has written is decoded; what is no text is an error. Where it has written nothing of
/// a module, the error tells its code.
pub proof fn law_what_is_written_is_decoded(units: Seq<u16>, text: Seq<char>, last_error: u32)
    ensures
        wide::utf16(text) == wide::until_zero(units) ==> decoded(units) == Ok::<
            Seq<char>,
            error::Failure,
        >(text),
        (forall|other: Seq<char>| #[trigger] wide::utf16(other) != wide::until_zero(units))
            ==> decoded(units) == Err::<Seq<char>, error::Failure>(error::Failure::Utf16Error),
        units.len() > 0 ==> path_of_module(units, last_error) == decoded(units),
        units.len() == 0 ==> path_of_module(units, last_error) == Err::<
            Seq<char>,
            error::Failure,
        >(
            error::Failure::Error(
                text_laws::joined(
                    seq![
                        "Get process image path failed: WIN32_ERROR("@,
                        text::decimal(last_error as int),
                        ")"@,
                    ],
                ),
            ),
        ),
{
    reveal_with_fuel(text_laws::joined_to, 4);
    if wide::utf16(text) == wide::until_zero(units) {
        wide::law_encoded_decodes(text);
    }
}

/// The file whose version information is asked for is the image of the process: its path is handed
/// over as UTF-16 with a zero at its end.
pub proof fn law_image_is_what_is_asked_about(path: Seq<char>, after: AppNameState, step: AppNameStep)
    requires
        path.len() > 0,
        !path.contains('\0'),
        follows_path(Ok(path), after),
        after.asks(step),
    ensures
        step is Size,
        step->path@ == wide::utf16(path).push(0),
        after matches AppNameState::Sizing { path: kept, .. } && kept == path,
{
    wide::law_handed_over_reads_back(path);
    wide::lemma_whole_text(path);
}

/// A stage of a query asks for what it is named after; a value is asked for by the language and the
/// property that it is at.
pub proof fn law_each_stage_asks_for_its_own(state: AppNameState, step: AppNameStep)
    requires
        state.asks(step),
    ensures
        state is Opening <==> step is Open,
        state is QueryingImage <==> step is QueryImage,
        state is ReadingModulePath <==> step is ReadModulePath,
        state is ReadingModuleName <==> step is ReadModuleName,
        state is ReplacingModuleName <==> step is ReplaceModuleName,
        state is Sizing <==> step is Size,
        state is Loading <==> step is Load,
        state is Translating <==> step is Translate,
        state is ReadingValues <==> step is ReadValue,
        state is Found <==> step is Done,
        state matches AppNameState::Sizing { units, .. } ==> step->path@ == units,
        state matches AppNameState::Loading { size, .. } ==> step->size == size,
        state matches AppNameState::ReadingValues { pages, key, page, .. } ==> step->query@
            == process::version_query_text(pages[page as int], key),
{
}

} // verus!
