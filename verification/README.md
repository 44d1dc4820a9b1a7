# fraud_knn

Fraud detection by nearest neighbours: a transaction becomes a vector of 14 quantised
coordinates, the five nearest reference transactions vote, and the transaction is approved if
fewer than six tenths of the votes are fraud. The reference vectors lie in an index file, grouped
into clusters by k-means, so that a query looks at a few clusters only.

The library under `src/` is verified with Verus:

| modules | what they hold |
|---|---|
| `bytes`, `metric` | little-endian integers; squared distances of vectors and boxes |
| `index_file`, `index_writer` | the layout of an index file, and its writing |
| `kmeans`, `builder`, `build_laws` | training of centroids, building of an index file, and what holds of every built file |
| `probes`, `top`, `search`, `search_laws`, `scan_laws`, `warmup` | the search in an index file, and what holds of every search and every scan |
| `clock`, `types`, `vectorizer` | transactions and their features |
| `scorer`, `response` | the decision and the answer to a request |
| `evaluation`, `bench` | evaluation on a labelled dataset, and benchmarks |
| `parallel` | work on the thread pool |

A query scans the 8 clusters whose centroids are nearest. If two or three of the five votes are
fraud then, it looks at up to 100 clusters, and passes over those whose bounding box is no nearer
than the neighbours found. `search_laws` shows that this loses nothing where the boxes enclose
their clusters, and `build_laws` shows that they do in every file that was built.

Some facts are taken from outside crates without proof: the results of the parallel iterators of
`rayon` in `parallel`, and of the calendar of `chrono` in `clock`.

The programs around the library are under `app/`: the server on a Unix socket, `preprocess`,
`evaluate` and `bench`. Floating-point arithmetic is done there: a feature leaves the library as
an exact description of its value.
