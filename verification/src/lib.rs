//! Read-only parser and navigator for ext4 filesystem images.
//!
//! Given a block device that yields raw bytes at arbitrary offsets, the
//! library reconstructs the filesystem's logical view — superblock geometry,
//! block-group descriptors, inodes, directory trees and file data — so a
//! caller can resolve a path to a regular file and stream its contents.

mod decode;
mod device;
mod dir;
mod error;
mod extent_tree;
mod file;
mod fs;
mod group;
mod inode;
mod render;
mod stat;
mod superblock;

pub use decode::{le_u16, le_u32, le_u64, read_u16_le, read_u32_le, read_u64_le, read_fixed_bytes};
pub use device::{Disk, MemDisk};
pub use dir::{DirEntry, Entry, spec_dirent, spec_dirent_ok, spec_dir_entries, entry_views, spec_rec_len_sum, spec_dir_block_wf, lemma_dir_iteration_bounded, lemma_dir_iteration_exhaustive, lemma_dir_iteration_complete, parse_dir_block};
pub use error::Error;
pub use render::{hex_char, hex_byte, hex_range, dec_char, dec_render, u64_to_dec, append_hex_byte, append_hex_range, append_dec};
pub use extent_tree::{ExtentTree, ExtentHeader, Extent, ExtentIdx, spec_header, spec_extent, spec_extent_idx, spec_leaf_at, spec_idx_at, spec_leaf_pair_ok, spec_leaves_sorted, spec_idx_pair_ok, spec_idxs_sorted, spec_node_valid, lemma_leaves_pairwise_disjoint, lemma_tree_extents_disjoint};
pub use inode::{Inode, lemma_inode_decode_deterministic, spec_inode_group, spec_inode_slot, spec_inode_offset, spec_inode_readable, spec_itable_of_group, lemma_inode_offset_within_device};
pub use file::{Ext4File, copy_bytes, lemma_reads_concatenate, spec_file_byte, spec_file_contents, spec_block_bytes, spec_dir_all_entries, lemma_all_entries_prefix, spec_resolve_node_ok};
pub use fs::{FileSystem, ROOT_INODE_NUM, spec_nblocks, spec_idx_child, spec_find_index, spec_leaves, spec_resolve_node, spec_file_blocks, spec_file_blocks_ok, spec_find_named, spec_dir_lookup, spec_token_end, spec_components_from, split_path, bytes_eq, views_of, spec_inode_rec, spec_rec_area, spec_rec_size, spec_rec_has_extents, spec_walk, spec_open, spec_mountable, lemma_open_idempotent};
pub use group::{Group, GroupDesc, spec_gdt_base, spec_gdt_offset, lemma_gdt_base_placement};
pub use stat::{Mode, IFlags, mode_type_char, mode_render, lemma_mode_eq, lemma_iflags_eq, spec_file_type_count, lemma_file_types_exclusive};
pub use superblock::{
    SuperBlock, FeatureCompat, FeatureInCompat, FeatureRoCompat, FsState, OnErrors, OS,
    HashAlgorithm, EncryptAlgos, lemma_superblock_decode_deterministic, spec_record_well_formed,
    lemma_record_well_formed,
};
