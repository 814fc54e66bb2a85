//! Inodes of the virtual file system: directories list named children,
//! files list the page frames that hold their bytes.
use vstd::prelude::*;
use vstd::string::*;

verus! {

/// What an inode is.
#[derive(Debug, Clone, PartialEq, Eq)]
pub enum InodeType {
    /// A directory: `(name, inode index)` entries in insertion order.
    Directory {
        /// The directory's entries.
        entries: Vec<(String, usize)>,
    },
    /// A regular file stored in page frames.
    File {
        /// Page frames holding the file, in order.
        blocks: Vec<usize>,
        /// File length in bytes.
        size: usize,
    },
}

/// A file or directory node.
#[derive(Debug, Clone, PartialEq, Eq)]
pub struct Inode {
    /// Position of the node in the inode table.
    pub index: usize,
    /// The node's own name.
    pub name: String,
    /// Directory or file contents.
    pub inode_type: InodeType,
}

impl Inode {
    /// An empty directory node.
    pub fn new_directory(index: usize, name: &str) -> (n: Self)
        ensures
            n.index == index,
            n.name@ == name@,
            n.inode_type matches InodeType::Directory { entries } && entries@.len() == 0,
    {
        Inode {
            index,
            name: String::from_str(name),
            inode_type: InodeType::Directory { entries: Vec::new() },
        }
    }

    /// An empty file node.
    pub fn new_file(index: usize, name: &str) -> (n: Self)
        ensures
            n.index == index,
            n.name@ == name@,
            n.inode_type matches InodeType::File { blocks, size } && blocks@.len() == 0 && size
                == 0,
    {
        Inode {
            index,
            name: String::from_str(name),
            inode_type: InodeType::File { blocks: Vec::new(), size: 0 },
        }
    }

    /// Whether the node is a directory.
    pub fn is_directory(&self) -> (b: bool)
        ensures
            b == self.inode_type is Directory,
    {
        matches!(self.inode_type, InodeType::Directory { .. })
    }

    /// Whether the node is a regular file.
    pub fn is_file(&self) -> (b: bool)
        ensures
            b == self.inode_type is File,
    {
        matches!(self.inode_type, InodeType::File { .. })
    }
}

} // verus!
