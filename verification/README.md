# VortexWall

Tails authentication logs, counts each address's failures in a sliding window,
and drops the offender with nftables once a threshold is crossed.

- `src/` is the library. It decides and computes, performs no I/O, and is verified
  with Verus.
  - `detector`: offenders in journal lines, addresses that are never banned, the
    sliding-window tracker; `detector_laws`: what the tracker's rule amounts to.
  - `daemon`: what each failure leads to; `daemon_laws`: what the daemon does and
    never does.
  - `nft`: what `nft` is told and what its answers mean; `ruleset`: a model of what
    nftables makes of it; `setup_laws` and `nft_laws`: what setting up, banning and
    lifting a ban do to the ruleset.
  - `config`, `watch`, `admin`, `cli`: configuration, the journal watch, service
    control, the command line.
  - `ip` and `ip_laws`, `time`, `text`, `command`: what the rest builds on.
- `app/` is the program around it: arguments, processes, files and the clock.
- `tests/` runs the library on concrete values.
