//! Classifications of output-path strings by their shape.

use vstd::prelude::*;

use crate::paths::{
    ends_with_sep, has_extension, spec_ends_with_sep, spec_has_extension, spec_starts_with_sep,
    starts_with_sep,
};

verus! {

/// The shape of a bare file name.
#[derive(Debug, PartialEq, Eq, Structural, Clone, Copy)]
pub enum SimpleFilename {
    /// A name without an extension, such as `output`.
    SimpleFileName,
    /// A name with an extension, such as `output.csv`.
    SimpleFileNameWithExt,
}

impl SimpleFilename {
    /// Classifies a path by whether its file name carries an extension.
    pub fn from_path(value: &str) -> (r: Self)
        ensures
            r is SimpleFileNameWithExt <==> spec_has_extension(value@),
    {
        if has_extension(value) {
            SimpleFilename::SimpleFileNameWithExt
        } else {
            SimpleFilename::SimpleFileName
        }
    }
}

/// The shape of an absolute file path.
#[derive(Debug, PartialEq, Eq, Structural, Clone, Copy)]
pub enum AbsolouteFilePath {
    /// A directory path, such as `C:\some\path\`.
    AbsoloutePathNoFile,
    /// A path to a file without an extension, such as `C:\some\path\file`.
    AbsoloutePathWithFileNoExt,
    /// A path to a file with an extension, such as `C:\some\path\file.csv`.
    AbsoloutePathWithFile,
}

impl AbsolouteFilePath {
    /// Classifies a path: one that ends in a separator holds no file;
    /// otherwise an extension marks a file, and anything else counts as
    /// a directory path too.
    pub fn from_path(value: &str) -> (r: Self)
        ensures
            r is AbsoloutePathWithFile <==> (!spec_ends_with_sep(value@) && spec_has_extension(
                value@,
            )),
            !(r is AbsoloutePathWithFileNoExt),
    {
        if ends_with_sep(value) {
            AbsolouteFilePath::AbsoloutePathNoFile
        } else if has_extension(value) {
            AbsolouteFilePath::AbsoloutePathWithFile
        } else {
            AbsolouteFilePath::AbsoloutePathNoFile
        }
    }
}

/// The shape of a folder-relative path.
#[derive(Debug, PartialEq, Eq, Structural, Clone, Copy)]
pub enum FolderPath {
    /// A folder path without a file, such as `some\path\`.
    FolderNoFile,
    /// A folder path to a file without an extension, such as `some\path\file`.
    FolderWithFileNoExt,
    /// A folder path to a file with an extension, such as `some\path\file.csv`.
    FolderWithFile,
}

impl FolderPath {
    /// Classifies a path: one that leads with a separator, or does not
    /// end in one, holds no file for this shape; a trailing separator
    /// with an extension somewhere in the last component marks a file.
    pub fn from_path(value: &str) -> (r: Self)
        ensures
            r is FolderWithFile <==> (!spec_starts_with_sep(value@) && spec_ends_with_sep(value@)
                && spec_has_extension(value@)),
            !(r is FolderWithFileNoExt),
    {
        if starts_with_sep(value) {
            FolderPath::FolderNoFile
        } else if ends_with_sep(value) && has_extension(value) {
            FolderPath::FolderWithFile
        } else {
            FolderPath::FolderNoFile
        }
    }
}

/// The shape of an output path, whichever classification applies first.
#[derive(Debug, PartialEq, Eq, Structural, Clone, Copy)]
pub enum OutPathShape {
    /// Classified as a bare file name.
    SimpleFile(SimpleFilename),
    /// Classified as an absolute file path.
    AbsolouteFile(AbsolouteFilePath),
    /// Classified as a folder-relative path.
    FolderFile(FolderPath),
}

impl OutPathShape {
    /// Classifies an output path. The bare-file-name classification
    /// always applies, so it always wins; the other arms stand for the
    /// shapes a caller may still match on.
    pub fn from_path(value: &str) -> (r: Self)
        ensures
            r == OutPathShape::SimpleFile(
                if spec_has_extension(value@) {
                    SimpleFilename::SimpleFileNameWithExt
                } else {
                    SimpleFilename::SimpleFileName
                },
            ),
    {
        let simple = SimpleFilename::from_path(value);
        let abs = AbsolouteFilePath::from_path(value);
        let folder = FolderPath::from_path(value);

        let simple_parse = match simple {
            SimpleFilename::SimpleFileName => Some(
                OutPathShape::SimpleFile(SimpleFilename::SimpleFileName),
            ),
            SimpleFilename::SimpleFileNameWithExt => Some(
                OutPathShape::SimpleFile(SimpleFilename::SimpleFileNameWithExt),
            ),
        };
        let abs_parse = match abs {
            AbsolouteFilePath::AbsoloutePathNoFile => Some(
                OutPathShape::AbsolouteFile(AbsolouteFilePath::AbsoloutePathNoFile),
            ),
            AbsolouteFilePath::AbsoloutePathWithFile => Some(
                OutPathShape::AbsolouteFile(AbsolouteFilePath::AbsoloutePathWithFile),
            ),
            AbsolouteFilePath::AbsoloutePathWithFileNoExt => Some(
                OutPathShape::AbsolouteFile(AbsolouteFilePath::AbsoloutePathWithFileNoExt),
            ),
        };
        let folder_parse = match folder {
            FolderPath::FolderNoFile => Some(OutPathShape::FolderFile(FolderPath::FolderNoFile)),
            FolderPath::FolderWithFile => Some(
                OutPathShape::FolderFile(FolderPath::FolderWithFile),
            ),
            FolderPath::FolderWithFileNoExt => Some(
                OutPathShape::FolderFile(FolderPath::FolderWithFileNoExt),
            ),
        };
        match (simple_parse, abs_parse, folder_parse) {
            (Some(s), _, _) => s,
            (_, Some(a), _) => a,
            (_, _, Some(f)) => f,
            _ => OutPathShape::SimpleFile(SimpleFilename::SimpleFileName),
        }
    }
}

} // verus!
