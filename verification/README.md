# ossfs

Mounts a bucket of an S3-compatible store as a file system. Paths are object
keys; there is no metadata besides the bucket.

`src/` is the library, verified with Verus. It decides and computes: which key
a path has, what a listing shows, what is cached and for how long, how content
is cut into parts and put together again, what a file that is being written
holds and how it is saved, what the trash hides, restores and deletes. It makes
no requests of its own. An operation that needs the store is a sequence of
steps; each says what is to be asked, and the next one takes the answer.

`app/` makes the requests: the store through the AWS SDK, the files of the disk
cache, the metrics endpoint, and the FUSE and WinFsp adapters. The rate limit on
listings and the shares that are given as fractions are there too, as they use
floating point.

`tests/` runs the library against stores that are kept in memory.

Points in time are milliseconds of a clock that never goes back, and are passed
in. Calendar dates are day numbers; their text form comes from `chrono`.
Wherever a contract speaks of an MD5 digest, it is that of the `md-5` crate.
