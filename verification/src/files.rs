//! Where the files of a quantification run lie under its directory.

use crate::collection::SLASH;
use crate::meta::MetaInfo;
use vstd::prelude::*;
use vstd::string::StringSliceAdditionalSpecFns;

verus! {

pub const QUANT_FILE: &'static str = "quant.sf";

pub const BOOTSTRAP_FILE: &'static str = "aux_info/bootstrap/bootstraps.gz";

pub const AMBIG_FILE: &'static str = "aux_info/ambig_info.tsv";

pub const META_INFO_FILE: &'static str = "aux_info/meta_info.json";

pub const EQ_FILE: &'static str = "aux_info/eq_classes.txt";

pub const EQ_FILE_GZIPPED: &'static str = "aux_info/eq_classes.txt.gz";

pub const NAMES_TSV_FILE: &'static str = "aux_info/bootstrap/names.tsv.gz";

pub const CMD_FILE: &'static str = "cmd_info.json";

pub const COLLAPSED_LOG_FILE: &'static str = "collapsed.log";

pub const GROUP_FILE: &'static str = "groups.txt";

pub const DELTA_FILE: &'static str = "delta.log";

pub const CLUSTER_FILE: &'static str = "clusters.txt";

pub const GENE_CLUSTER_FILE: &'static str = "gene_cluster.log";

/// The files of one quantification run, each by its path.
#[derive(Debug)]
pub struct SalmonFiles {
    pub prefix: String,
    pub quant_file: String,
    pub bootstrap_file: String,
    pub ambig_file: String,
    pub mi_file: String,
    pub eq_file: String,
    pub names_tsv_file: String,
    pub cmd_file: String,
    pub collapsed_log_file: String,
    pub group_file: String,
    pub delta_file: String,
    pub cluster_file: String,
    pub gene_cluster_file: String,
}

/// What stands in front of the name of a file in the directory `dname`: the
/// directory and a slash, the slash left out where the directory is empty or
/// ends in one.
pub open spec fn dir_prefix(dname: &str) -> Seq<char> {
    if dname@.len() == 0 || dname.spec_bytes().last() == SLASH {
        dname@
    } else {
        dname@ + "/"@
    }
}

/// The name of the equivalence-class file below the run's directory: the
/// gzip one where metadata is at hand and says so, the plain one otherwise.
pub open spec fn eq_file_name(meta: Option<&MetaInfo>) -> Seq<char> {
    match meta {
        Some(info) => if info.has_property(crate::meta::GZIPPED@) {
            EQ_FILE_GZIPPED@
        } else {
            EQ_FILE@
        },
        None => EQ_FILE@,
    }
}

fn file_in(dname: &str, name: &str) -> (path: String)
    ensures
        path@ == dir_prefix(dname) + name@,
{
    let mut path = String::from_str(dname);
    let bytes = dname.as_bytes();
    let n = bytes.len();
    proof {
        // An empty text has no bytes, and a text without bytes is empty.
        vstd::utf8::encode_utf8_decode_utf8(dname@);
        if n == 0 {
            assert(dname@ =~= vstd::utf8::decode_utf8(Seq::<u8>::empty()));
        }
    }
    if n > 0 && bytes[n - 1] != SLASH {
        path.append("/");
    }
    path.append(name);
    path
}

impl SalmonFiles {
    /// Lays out the files of the run in the directory `dname`. `meta` is what
    /// the run's metadata file holds, if there is one.
    pub fn new(dname: &str, meta: Option<&MetaInfo>) -> (files: SalmonFiles)
        ensures
            files.prefix@ == dname@,
            files.quant_file@ == dir_prefix(dname) + QUANT_FILE@,
            files.bootstrap_file@ == dir_prefix(dname) + BOOTSTRAP_FILE@,
            files.ambig_file@ == dir_prefix(dname) + AMBIG_FILE@,
            files.mi_file@ == dir_prefix(dname) + META_INFO_FILE@,
            files.eq_file@ == dir_prefix(dname) + eq_file_name(meta),
            files.names_tsv_file@ == dir_prefix(dname) + NAMES_TSV_FILE@,
            files.cmd_file@ == dir_prefix(dname) + CMD_FILE@,
            files.collapsed_log_file@ == dir_prefix(dname) + COLLAPSED_LOG_FILE@,
            files.group_file@ == dir_prefix(dname) + GROUP_FILE@,
            files.delta_file@ == dir_prefix(dname) + DELTA_FILE@,
            files.cluster_file@ == dir_prefix(dname) + CLUSTER_FILE@,
            files.gene_cluster_file@ == dir_prefix(dname) + GENE_CLUSTER_FILE@,
    {
        let gzipped = match meta {
            Some(info) => info.is_gzipped(),
            None => false,
        };
        let eq_name = if gzipped {
            EQ_FILE_GZIPPED
        } else {
            EQ_FILE
        };
        SalmonFiles {
            prefix: String::from_str(dname),
            quant_file: file_in(dname, QUANT_FILE),
            bootstrap_file: file_in(dname, BOOTSTRAP_FILE),
            ambig_file: file_in(dname, AMBIG_FILE),
            mi_file: file_in(dname, META_INFO_FILE),
            eq_file: file_in(dname, eq_name),
            names_tsv_file: file_in(dname, NAMES_TSV_FILE),
            cmd_file: file_in(dname, CMD_FILE),
            collapsed_log_file: file_in(dname, COLLAPSED_LOG_FILE),
            group_file: file_in(dname, GROUP_FILE),
            delta_file: file_in(dname, DELTA_FILE),
            cluster_file: file_in(dname, CLUSTER_FILE),
            gene_cluster_file: file_in(dname, GENE_CLUSTER_FILE),
        }
    }
}

} // verus!
