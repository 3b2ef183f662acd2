# Shenron

Shenron hunts passively through local web logs. It measures how requests are distributed, compares
stored runs, builds defensive candidates for review and exports aggregates. Nothing it reports is a
determination of an attack, exploitation, compromise or identity, and nothing is deployed.

The library under `src/` is verified with Verus: each function states in `requires` and `ensures`
what it computes, over mathematical values, and the laws of the library stand beside the functions
as public proof functions. What comes from other crates (regular expressions, times, JSON, networks,
digests) is called through a few small functions whose contracts say what is believed of them.

| Modules | What they hold |
| --- | --- |
| `text`, `ordered`, `numbers`, `sums`, `permutation` | Texts, ordered maps and sets, medians and ranks, sums and orders of lists |
| `network`, `event`, `access_log` | Addresses, requests, trusted proxies, combined access logs |
| `status`, `timeline`, `tracking`, `focus`, `focus_groups`, `concentration`, `volume_report`, `volume_laws`, `renaming` | Bounded, exact measurement of request volumes, and what holds of its reports |
| `json`, `json_order`, `digest` | Plain JSON values and SHA-256 digests |
| `comparison`, `daily`, `conditions`, `references`, `consistency` | Comparison of runs and of declared with observed facts |
| `finding`, `condition`, `candidate`, `export`, `evidence`, `evaluation`, `address_set` | Candidates, their replay, export and evaluation |
| `bot_ranges`, `kev`, `reputation`, `setup` | Public inputs |
| `cti_export`, `disposition`, `findings_io`, `investigation` | Exports, opinions of analysts, stored findings, request context |
| `lab`, `lab_corpus`, `lab_shape`, `lab_validation` | Synthetic corpora and validation against their ground truth |

Shares and medians are held as whole numbers. Floating-point numbers, files, processes and the
stored form of the types are left to `app/`, which is ordinary Rust.
