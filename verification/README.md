# beanstalkd

A beanstalk work queue in Verus: a server that speaks the beanstalk protocol, and a
command-line client for it.

- `src/` is the library. Its functions are verified, but for the few marked
  `external_body`: these only call the `base64` and `rand` crates or a text or clock function of
  the standard library, and what they promise is believed without proof.
  - `view`, `requests`, `restore` and `stats` say, as mathematical functions on one value, what
    the server holds, what each request, tick and connection makes of it, and what is answered.
  - `state` is the executable server. Each of its methods is proved to do what these functions
    say. `tables`, `names` and `order` are the data structures under it.
  - `protocol`, `session`, `config`, `listen` and `clock` surround it: request lines, what a
    session does next, options, addresses.
  - `wal` and `binlog` are the records of the log, and the segments of the C server that can be
    taken over.
  - `cli` is the client: its options, the requests of its commands, the answers it reads, and
    its interactive mode.
  - `laws` holds what follows from all of this, as proof functions: that the tables always agree
    and the statistics count the jobs there are, that no job and no waiting request is lost, that
    the log's file gives back what was written to it, that a server started from the log of a run
    has the jobs that the run left, that client and server understand each other. What is said of
    whole runs holds as long as there are numbers left for jobs, connections and waiting
    requests, and no more than `u32::MAX` connections are open at once; what is said of the log
    holds of runs in which the base64 text of each job that was put stands for its body.
- `app/` is the program around the library: sockets, files, signals and the terminal. Run as
  `beanstalkd` it is the server, run as `beanstalkctl` the client.
- `tests/` runs the library on concrete values.

Time enters the library as an argument: `now` counts nanoseconds from any fixed origin, `unix`
seconds since the Unix epoch.
