//! The ways an operation on the store can fail.

use vstd::prelude::*;

verus! {

/// The filesystem or process operation during which a failure was reported.
#[derive(Clone, Copy, Debug, PartialEq, Eq, Structural)]
pub enum IoStage {
    /// Opening the source file, or reading a chunk of it.
    Read,
    /// Creating the store root.
    CreateDir,
    /// Copying the source into the store.
    Copy,
    /// Running the clipboard utility.
    Clipboard,
    /// Reading the configuration file.
    ReadConfig,
}

/// Why an operation on the store failed.
#[derive(Clone, Copy, Debug, PartialEq, Eq, Structural)]
pub enum StoreError {
    /// The source path does not exist.
    NotFound,
    /// The source path exists but is not a regular file.
    NotAFile,
    /// No ancestor of the starting directory holds a store.
    NotInitialized,
    /// There is no configuration to load.
    ConfigMissing,
    /// The configuration is malformed or lacks a required key.
    ConfigInvalid,
    /// An underlying operation failed.
    Io(IoStage),
}

/// The words for the operation that failed.
pub open spec fn stage_text(stage: IoStage) -> Seq<char> {
    match stage {
        IoStage::Read => "reading the source file"@,
        IoStage::CreateDir => "creating clippings directory"@,
        IoStage::Copy => "copying into the store"@,
        IoStage::Clipboard => "setting the clipboard"@,
        IoStage::ReadConfig => "reading the configuration"@,
    }
}

/// The human-readable message of an error.
pub open spec fn message_text(error: StoreError) -> Seq<char> {
    match error {
        StoreError::NotFound => "the path does not exist"@,
        StoreError::NotAFile => "the path is not a file"@,
        StoreError::NotInitialized => "no store found in this directory or any parent"@,
        StoreError::ConfigMissing => "no configuration found"@,
        StoreError::ConfigInvalid => "the configuration is invalid"@,
        StoreError::Io(stage) => "i/o failure while "@ + stage_text(stage),
    }
}

impl IoStage {
    /// The words for this operation.
    pub fn describe(&self) -> (text: String)
        ensures
            text@ == stage_text(*self),
    {
        match self {
            IoStage::Read => "reading the source file".to_owned(),
            IoStage::CreateDir => "creating clippings directory".to_owned(),
            IoStage::Copy => "copying into the store".to_owned(),
            IoStage::Clipboard => "setting the clipboard".to_owned(),
            IoStage::ReadConfig => "reading the configuration".to_owned(),
        }
    }
}

impl StoreError {
    /// The human-readable message of this error.
    pub fn message(&self) -> (text: String)
        ensures
            text@ == message_text(*self),
    {
        match self {
            StoreError::NotFound => "the path does not exist".to_owned(),
            StoreError::NotAFile => "the path is not a file".to_owned(),
            StoreError::NotInitialized => "no store found in this directory or any parent".to_owned(),
            StoreError::ConfigMissing => "no configuration found".to_owned(),
            StoreError::ConfigInvalid => "the configuration is invalid".to_owned(),
            StoreError::Io(stage) => {
                let mut text = "i/o failure while ".to_owned();
                let what = stage.describe();
                text.append(what.as_str());
                text
            },
        }
    }
}

} // verus!
