//! What the user asked for: the switches of one run, and the one operation
//! that they select.

use vstd::prelude::*;

verus! {

/// The switches of one run.
#[derive(Debug, Clone)]
pub struct Opts {
    /// Snapshot input hostnames (comma separated)
    pub hosts: Option<String>,
    /// Snapshot input port numbers (comma separated)
    pub ports: Option<String>,
    /// Snapshot capture parallelism (default 1)
    pub parallel: Option<String>,
    /// Output filter for statistic names as regex
    pub stat_name_match: Option<String>,
    /// Output filter for table names as regex (requires --details-enable)
    pub table_name_match: Option<String>,
    /// Output filter for hostname or ports as regex
    pub hostname_match: Option<String>,
    /// Output setting to add statistics that are not counters
    pub gauges_enable: bool,
    /// Output setting to increase detail, such as report each table and tablet individually
    pub details_enable: bool,
    /// Snapshot setting to be as silent as possible, only errors are printed
    pub silent: bool,
    /// Perform a snapshot (creates stored JSON files)
    pub snapshot: bool,
    /// Snapshot add comment in snapshot overview
    pub snapshot_comment: Option<String>,
    /// Create a performance diff report using a begin and an end snapshot number.
    pub snapshot_diff: bool,
    /// Create a diff report using a begin and an end snapshot number without performance figures.
    pub snapshot_nonmetrics_diff: bool,
    /// Create a metric diff report using a begin and end snapshot number.
    pub metrics_diff: bool,
    /// Create an entity diff report using a begin and end snapshot number.
    pub entity_diff: bool,
    /// Create a masters diff report using a begin and end snapshot number.
    pub masters_diff: bool,
    /// Create a tablet servers diff report using a begin and end snapshot number.
    pub tablet_servers_diff: bool,
    /// Create a vars diff report using a begin and end snapshot number.
    pub vars_diff: bool,
    /// Create a node_exporter diff report using a begin and end snapshot number.
    pub node_exporter_diff: bool,
    /// Create a (YSQL) statements diff report using a begin and end snapshot number.
    pub statements_diff: bool,
    /// Create a versions diff report using a begin and end snapshot number.
    pub versions_diff: bool,
    /// Create an adhoc diff report only for metrics
    pub adhoc_metrics_diff: bool,
    /// Create an adhoc diff report only for node_exporter
    pub adhoc_node_exporter_diff: bool,
    /// Create an adhoc diff report excluding metrics
    pub adhoc_nonmetrics_diff: bool,
    /// Lists the snapshots in the yb_stats.snapshots in the current directory.
    pub snapshot_list: bool,
    /// Output setting to specify the begin snapshot number for diff report.
    pub begin: Option<i32>,
    /// Output setting to specify the end snapshot number for diff report.
    pub end: Option<i32>,
    /// Print memtrackers data for the given snapshot number
    pub print_memtrackers: Option<Option<String>>,
    /// tail log data
    pub tail_log: bool,
    /// Print log data for the given snapshot number
    pub print_log: Option<Option<String>>,
    /// Output log data severity to include: optional: I (use with --print_log)
    pub log_severity: String,
    /// Print entity data for snapshot number, or get current.
    pub print_entities: Option<Option<String>>,
    /// Print master server data for snapshot number, or get current.
    pub print_masters: Option<Option<String>>,
    /// Print tablet server data for snapshot number, or get current.
    pub print_tablet_servers: Option<Option<String>>,
    /// Print vars for snapshot number, or get current
    pub print_vars: Option<Option<String>>,
    /// Print version data for snapshot number, or get current.
    pub print_version: Option<Option<String>>,
    /// Print rpcs for the given snapshot number, or get current.
    pub print_rpcs: Option<Option<String>>,
    /// print clocks for the given snapshot number, or get current.
    pub print_clocks: Option<Option<String>>,
    /// print master leader tablet server latencies
    pub print_latencies: Option<Option<String>>,
    /// Print threads data for the given snapshot number, or get current.
    pub print_threads: Option<Option<String>>,
    /// Print gflags for the given snapshot number, or get current.
    pub print_gflags: Option<Option<String>>,
    /// Print cluster-config for the given snapshot number, or get current.
    pub print_cluster_config: Option<Option<String>>,
    /// Print health-check for the given snapshot number, or get current.
    pub print_health_check: Option<Option<String>>,
    /// Print the drive info for the given snapshot number, or get current.
    pub print_drives: Option<Option<String>>,
    /// Print the tablet server operations for the given snapshot number, or get current.
    pub print_tablet_server_operations: Option<Option<String>>,
    /// Print the master tasks for the given snapshot number, or get current.
    pub print_master_tasks: Option<Option<String>>,
    /// Print the table detail the given snapshot number, or get current.
    pub print_table_detail: Option<Option<String>>,
    /// Print the tablet detail the given snapshot number, or get current.
    pub print_tablet_detail: Option<Option<String>>,
    /// UUID for table-detail
    pub uuid: String,
    /// Snapshot disable gathering of thread stacks from /threadz
    pub disable_threads: bool,
    /// Snapshot add very detailed data to snapshot
    pub extra_data: bool,
    /// Output setting for the length of the SQL text to display
    pub sql_length: usize,
    /// Get the hostname for the tablet leader of a colocated YSQL database.
    pub get_coloc_leader_host: Option<String>,
}

impl Default for Opts {
    /// The switches of a run that asks for nothing: every switch off, and the
    /// settings that have a value of their own at that value.
    fn default() -> (options: Opts)
        ensures
            forall|operation: Operation|
                asked_for(&options, operation) ==> operation == Operation::AdhocDiff,
            options.hosts is None,
            options.ports is None,
            options.parallel is None,
            options.stat_name_match is None,
            options.table_name_match is None,
            options.hostname_match is None,
            options.snapshot_comment is None,
            options.begin is None,
            options.end is None,
            !options.gauges_enable,
            !options.details_enable,
            !options.silent,
            !options.disable_threads,
            !options.extra_data,
            options.log_severity@ == "WEF"@,
            options.uuid@ == ""@,
            options.sql_length == 80,
    {
        Opts {
            hosts: None,
            ports: None,
            parallel: None,
            stat_name_match: None,
            table_name_match: None,
            hostname_match: None,
            gauges_enable: false,
            details_enable: false,
            silent: false,
            snapshot: false,
            snapshot_comment: None,
            snapshot_diff: false,
            snapshot_nonmetrics_diff: false,
            metrics_diff: false,
            entity_diff: false,
            masters_diff: false,
            tablet_servers_diff: false,
            vars_diff: false,
            node_exporter_diff: false,
            statements_diff: false,
            versions_diff: false,
            adhoc_metrics_diff: false,
            adhoc_node_exporter_diff: false,
            adhoc_nonmetrics_diff: false,
            snapshot_list: false,
            begin: None,
            end: None,
            print_memtrackers: None,
            tail_log: false,
            print_log: None,
            log_severity: String::from_str("WEF"),
            print_entities: None,
            print_masters: None,
            print_tablet_servers: None,
            print_vars: None,
            print_version: None,
            print_rpcs: None,
            print_clocks: None,
            print_latencies: None,
            print_threads: None,
            print_gflags: None,
            print_cluster_config: None,
            print_health_check: None,
            print_drives: None,
            print_tablet_server_operations: None,
            print_master_tasks: None,
            print_table_detail: None,
            print_tablet_detail: None,
            uuid: String::from_str(""),
            disable_threads: false,
            extra_data: false,
            sql_length: 80,
            get_coloc_leader_host: None,
        }
    }
}

/// The operations of which one run performs one.
#[derive(Debug, Clone, Copy, PartialEq, Eq, Structural)]
pub enum Operation {
    Snapshot,
    SnapshotDiff,
    SnapshotNonmetricsDiff,
    SnapshotList,
    MetricsDiff,
    EntityDiff,
    MastersDiff,
    TabletServersDiff,
    VarsDiff,
    NodeExporterDiff,
    StatementsDiff,
    VersionsDiff,
    PrintMemtrackers,
    PrintVersion,
    PrintThreads,
    PrintEntities,
    PrintMasters,
    PrintTabletServers,
    PrintVars,
    PrintClocks,
    PrintLatencies,
    PrintRpcs,
    PrintLog,
    TailLog,
    AdhocMetricsDiff,
    AdhocNodeExporterDiff,
    AdhocNonmetricsDiff,
    PrintGflags,
    PrintClusterConfig,
    PrintHealthCheck,
    PrintDrives,
    PrintTabletServerOperations,
    PrintMasterTasks,
    PrintTableDetail,
    PrintTabletDetail,
    GetColocLeaderHost,
    /// The diff of two live passes, which is done where nothing else is
    /// asked for.
    AdhocDiff,
}

/// The rank of an operation: where several are asked for, the one of the
/// lowest rank is performed.
pub open spec fn rank(operation: Operation) -> nat {
    match operation {
        Operation::Snapshot => 0,
        Operation::SnapshotDiff => 1,
        Operation::SnapshotNonmetricsDiff => 2,
        Operation::SnapshotList => 3,
        Operation::MetricsDiff => 4,
        Operation::EntityDiff => 5,
        Operation::MastersDiff => 6,
        Operation::TabletServersDiff => 7,
        Operation::VarsDiff => 8,
        Operation::NodeExporterDiff => 9,
        Operation::StatementsDiff => 10,
        Operation::VersionsDiff => 11,
        Operation::PrintMemtrackers => 12,
        Operation::PrintVersion => 13,
        Operation::PrintThreads => 14,
        Operation::PrintEntities => 15,
        Operation::PrintMasters => 16,
        Operation::PrintTabletServers => 17,
        Operation::PrintVars => 18,
        Operation::PrintClocks => 19,
        Operation::PrintLatencies => 20,
        Operation::PrintRpcs => 21,
        Operation::PrintLog => 22,
        Operation::TailLog => 23,
        Operation::AdhocMetricsDiff => 24,
        Operation::AdhocNodeExporterDiff => 25,
        Operation::AdhocNonmetricsDiff => 26,
        Operation::PrintGflags => 27,
        Operation::PrintClusterConfig => 28,
        Operation::PrintHealthCheck => 29,
        Operation::PrintDrives => 30,
        Operation::PrintTabletServerOperations => 31,
        Operation::PrintMasterTasks => 32,
        Operation::PrintTableDetail => 33,
        Operation::PrintTabletDetail => 34,
        Operation::GetColocLeaderHost => 35,
        Operation::AdhocDiff => 36,
    }
}

/// Whether the switches ask for an operation. The diff of two live passes
/// needs no switch of its own.
pub open spec fn asked_for(options: &Opts, operation: Operation) -> bool {
    match operation {
        Operation::Snapshot => options.snapshot,
        Operation::SnapshotDiff => options.snapshot_diff,
        Operation::SnapshotNonmetricsDiff => options.snapshot_nonmetrics_diff,
        Operation::SnapshotList => options.snapshot_list,
        Operation::MetricsDiff => options.metrics_diff,
        Operation::EntityDiff => options.entity_diff,
        Operation::MastersDiff => options.masters_diff,
        Operation::TabletServersDiff => options.tablet_servers_diff,
        Operation::VarsDiff => options.vars_diff,
        Operation::NodeExporterDiff => options.node_exporter_diff,
        Operation::StatementsDiff => options.statements_diff,
        Operation::VersionsDiff => options.versions_diff,
        Operation::PrintMemtrackers => options.print_memtrackers is Some,
        Operation::PrintVersion => options.print_version is Some,
        Operation::PrintThreads => options.print_threads is Some,
        Operation::PrintEntities => options.print_entities is Some,
        Operation::PrintMasters => options.print_masters is Some,
        Operation::PrintTabletServers => options.print_tablet_servers is Some,
        Operation::PrintVars => options.print_vars is Some,
        Operation::PrintClocks => options.print_clocks is Some,
        Operation::PrintLatencies => options.print_latencies is Some,
        Operation::PrintRpcs => options.print_rpcs is Some,
        Operation::PrintLog => options.print_log is Some,
        Operation::TailLog => options.tail_log,
        Operation::AdhocMetricsDiff => options.adhoc_metrics_diff,
        Operation::AdhocNodeExporterDiff => options.adhoc_node_exporter_diff,
        Operation::AdhocNonmetricsDiff => options.adhoc_nonmetrics_diff,
        Operation::PrintGflags => options.print_gflags is Some,
        Operation::PrintClusterConfig => options.print_cluster_config is Some,
        Operation::PrintHealthCheck => options.print_health_check is Some,
        Operation::PrintDrives => options.print_drives is Some,
        Operation::PrintTabletServerOperations => options.print_tablet_server_operations is Some,
        Operation::PrintMasterTasks => options.print_master_tasks is Some,
        Operation::PrintTableDetail => options.print_table_detail is Some,
        Operation::PrintTabletDetail => options.print_tablet_detail is Some,
        Operation::GetColocLeaderHost => options.get_coloc_leader_host is Some,
        Operation::AdhocDiff => true,
    }
}

/// Selects the operation of a run: of those that the switches ask for, the
/// one of the lowest rank.
pub fn select_operation(options: &Opts) -> (operation: Operation)
    ensures
        asked_for(options, operation),
        forall|other: Operation| rank(other) < rank(operation) ==> !asked_for(options, other),
{
    if options.snapshot {
        Operation::Snapshot
    } else if options.snapshot_diff {
        Operation::SnapshotDiff
    } else if options.snapshot_nonmetrics_diff {
        Operation::SnapshotNonmetricsDiff
    } else if options.snapshot_list {
        Operation::SnapshotList
    } else if options.metrics_diff {
        Operation::MetricsDiff
    } else if options.entity_diff {
        Operation::EntityDiff
    } else if options.masters_diff {
        Operation::MastersDiff
    } else if options.tablet_servers_diff {
        Operation::TabletServersDiff
    } else if options.vars_diff {
        Operation::VarsDiff
    } else if options.node_exporter_diff {
        Operation::NodeExporterDiff
    } else if options.statements_diff {
        Operation::StatementsDiff
    } else if options.versions_diff {
        Operation::VersionsDiff
    } else if options.print_memtrackers.is_some() {
        Operation::PrintMemtrackers
    } else if options.print_version.is_some() {
        Operation::PrintVersion
    } else if options.print_threads.is_some() {
        Operation::PrintThreads
    } else if options.print_entities.is_some() {
        Operation::PrintEntities
    } else if options.print_masters.is_some() {
        Operation::PrintMasters
    } else if options.print_tablet_servers.is_some() {
        Operation::PrintTabletServers
    } else if options.print_vars.is_some() {
        Operation::PrintVars
    } else if options.print_clocks.is_some() {
        Operation::PrintClocks
    } else if options.print_latencies.is_some() {
        Operation::PrintLatencies
    } else if options.print_rpcs.is_some() {
        Operation::PrintRpcs
    } else if options.print_log.is_some() {
        Operation::PrintLog
    } else if options.tail_log {
        Operation::TailLog
    } else if options.adhoc_metrics_diff {
        Operation::AdhocMetricsDiff
    } else if options.adhoc_node_exporter_diff {
        Operation::AdhocNodeExporterDiff
    } else if options.adhoc_nonmetrics_diff {
        Operation::AdhocNonmetricsDiff
    } else if options.print_gflags.is_some() {
        Operation::PrintGflags
    } else if options.print_cluster_config.is_some() {
        Operation::PrintClusterConfig
    } else if options.print_health_check.is_some() {
        Operation::PrintHealthCheck
    } else if options.print_drives.is_some() {
        Operation::PrintDrives
    } else if options.print_tablet_server_operations.is_some() {
        Operation::PrintTabletServerOperations
    } else if options.print_master_tasks.is_some() {
        Operation::PrintMasterTasks
    } else if options.print_table_detail.is_some() {
        Operation::PrintTableDetail
    } else if options.print_tablet_detail.is_some() {
        Operation::PrintTabletDetail
    } else if options.get_coloc_leader_host.is_some() {
        Operation::GetColocLeaderHost
    } else {
        Operation::AdhocDiff
    }
}

} // verus!
